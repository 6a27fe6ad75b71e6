//! Placing decoded BMP pixels into an image buffer: palette lookups, the
//! run-length encoded operations, and padding the buffer to its size.
use vstd::prelude::*;
use crate::image::spec_xy_index;
use crate::bmp::rle::{BmpRle8Op, BmpRle4Op};

verus! {

/// What writing `c` at `(x, y)` of a `w` by `h` image does: the pixel
/// changes when the position is inside the image and the buffer; otherwise
/// nothing happens.
pub open spec fn put<P>(px: Seq<P>, w: u32, h: u32, x: u32, y: u32, c: P) -> Seq<P> {
    if x < w && y < h && spec_xy_index(x, y, w) < px.len() {
        px.update(spec_xy_index(x, y, w), c)
    } else {
        px
    }
}

/// `x + 1` with `u32` wrapping.
pub open spec fn next_x(x: u32) -> u32 {
    ((x as int + 1) % 0x1_0000_0000) as u32
}

/// `a + b` with `u32` wrapping.
pub open spec fn wrap_add(a: u32, b: u32) -> u32 {
    ((a as int + b as int) % 0x1_0000_0000) as u32
}

/// Writes a run of `count` pixels going right from `x`, the `k`-th of them
/// being `c0` for even `k` and `c1` for odd `k`; gives the final `x` and the
/// pixels.
pub open spec fn run<P>(px: Seq<P>, w: u32, h: u32, x: u32, y: u32, count: nat, k: nat, c0: P, c1: P) -> (u32, Seq<P>)
    decreases count,
{
    if count == 0 {
        (x, px)
    } else {
        let c = if k % 2 == 0 { c0 } else { c1 };
        run(put(px, w, h, x, y, c), w, h, next_x(x), y, (count - 1) as nat, k + 1, c0, c1)
    }
}

/// Writes the raw values `vals` going right from `x`, through `pal`.
pub open spec fn raw_run<P>(px: Seq<P>, w: u32, h: u32, x: u32, y: u32, vals: Seq<u8>, pal: Seq<P>) -> (u32, Seq<P>)
    decreases vals.len(),
{
    if vals.len() == 0 {
        (x, px)
    } else {
        raw_run(put(px, w, h, x, y, pal[vals[0] as int]), w, h, next_x(x), y, vals.skip(1), pal)
    }
}

/// Carrying out 8bpp RLE operations from `(x, y)`, until the end of the
/// operations or the end-of-bitmap operation.
pub open spec fn paint_rle8_spec<P>(ops: Seq<BmpRle8Op>, pal: Seq<P>, w: u32, h: u32, x: u32, y: u32, px: Seq<P>) -> Seq<P>
    decreases ops.len(),
{
    if ops.len() == 0 {
        px
    } else {
        let rest = ops.skip(1);
        match ops[0] {
            BmpRle8Op::EndOfBmp => px,
            BmpRle8Op::Newline => paint_rle8_spec(rest, pal, w, h, 0, next_x(y), px),
            BmpRle8Op::Run { count, index } => {
                let (x2, px2) = run(px, w, h, x, y, count as nat, 0, pal[index as int], pal[index as int]);
                paint_rle8_spec(rest, pal, w, h, x2, y, px2)
            },
            BmpRle8Op::Delta { right, up } => paint_rle8_spec(rest, pal, w, h, wrap_add(x, right), wrap_add(y, up), px),
            BmpRle8Op::Raw2 { q, w: w2 } => {
                let (x2, px2) = raw_run(px, w, h, x, y, seq![q, w2], pal);
                paint_rle8_spec(rest, pal, w, h, x2, y, px2)
            },
            BmpRle8Op::Raw1 { q } => {
                let (x2, px2) = raw_run(px, w, h, x, y, seq![q], pal);
                paint_rle8_spec(rest, pal, w, h, x2, y, px2)
            },
        }
    }
}

/// Carrying out 4bpp RLE operations from `(x, y)`, until the end of the
/// operations or the end-of-bitmap operation.
pub open spec fn paint_rle4_spec<P>(ops: Seq<BmpRle4Op>, pal: Seq<P>, w: u32, h: u32, x: u32, y: u32, px: Seq<P>) -> Seq<P>
    decreases ops.len(),
{
    if ops.len() == 0 {
        px
    } else {
        let rest = ops.skip(1);
        match ops[0] {
            BmpRle4Op::EndOfBmp => px,
            BmpRle4Op::Newline => paint_rle4_spec(rest, pal, w, h, 0, next_x(y), px),
            BmpRle4Op::Run { count, index_h, index_l } => {
                let (x2, px2) = run(px, w, h, x, y, count as nat, 0, pal[index_h as int], pal[index_l as int]);
                paint_rle4_spec(rest, pal, w, h, x2, y, px2)
            },
            BmpRle4Op::Delta { right, up } => paint_rle4_spec(rest, pal, w, h, wrap_add(x, right), wrap_add(y, up), px),
            BmpRle4Op::Raw4 { a, b, c, d } => {
                let (x2, px2) = raw_run(px, w, h, x, y, seq![a, b, c, d], pal);
                paint_rle4_spec(rest, pal, w, h, x2, y, px2)
            },
            BmpRle4Op::Raw3 { a, b, c } => {
                let (x2, px2) = raw_run(px, w, h, x, y, seq![a, b, c], pal);
                paint_rle4_spec(rest, pal, w, h, x2, y, px2)
            },
            BmpRle4Op::Raw2 { a, b } => {
                let (x2, px2) = raw_run(px, w, h, x, y, seq![a, b], pal);
                paint_rle4_spec(rest, pal, w, h, x2, y, px2)
            },
            BmpRle4Op::Raw1 { a } => {
                let (x2, px2) = raw_run(px, w, h, x, y, seq![a], pal);
                paint_rle4_spec(rest, pal, w, h, x2, y, px2)
            },
        }
    }
}

/// `v` cut to, or padded with `d` up to, `n` items.
pub open spec fn resized<P>(v: Seq<P>, n: nat, d: P) -> Seq<P> {
    if v.len() >= n {
        v.take(n as int)
    } else {
        v + Seq::new((n - v.len()) as nat, |i: int| d)
    }
}

/// Cuts `v` to, or pads it with `d` up to, `n` items.
pub fn resize_to<P: Copy>(v: &mut Vec<P>, n: usize, d: P)
    ensures
        final(v)@ == resized(old(v)@, n as nat, d),
{
    if v.len() >= n {
        v.truncate(n);
        assert(v@ =~= resized(old(v)@, n as nat, d));
    } else {
        let ghost start = v@;
        while v.len() < n
            invariant
                start.len() <= v@.len() <= n,
                start.len() < n,
                v@ == start + Seq::new((v@.len() - start.len()) as nat, |i: int| d),
            decreases n - v@.len(),
        {
            v.push(d);
            assert(v@ =~= start + Seq::new((v@.len() - start.len()) as nat, |i: int| d));
        }
        assert(v@ =~= resized(start, n as nat, d));
    }
}

/// Looks each index up in `pal`.
pub fn map_palette<P: Copy>(indexes: &Vec<u8>, pal: &Vec<P>) -> (v: Vec<P>)
    requires
        pal@.len() == 256,
    ensures
        v@ == indexes@.map_values(|i: u8| pal@[i as int]),
{
    let mut v: Vec<P> = Vec::new();
    let mut j: usize = 0;
    while j < indexes.len()
        invariant
            pal@.len() == 256,
            j <= indexes@.len(),
            v@ == indexes@.take(j as int).map_values(|i: u8| pal@[i as int]),
        decreases indexes@.len() - j,
    {
        v.push(pal[indexes[j] as usize]);
        j = j + 1;
        assert(v@ =~= indexes@.take(j as int).map_values(|i: u8| pal@[i as int]));
    }
    assert(indexes@.take(indexes@.len() as int) =~= indexes@);
    v
}

pub(crate) fn put_pixel<P: Copy>(px: &mut Vec<P>, w: u32, h: u32, x: u32, y: u32, c: P)
    ensures
        final(px)@ == put(old(px)@, w, h, x, y, c),
{
    if x < w && y < h {
        let i = crate::image::xy_width_to_index(x, y, w);
        if i < px.len() {
            px.set(i, c);
        }
    }
}

pub(crate) fn run_exec<P: Copy>(px: &mut Vec<P>, w: u32, h: u32, x: u32, y: u32, count: u16, c0: P, c1: P) -> (x2: u32)
    ensures
        (x2, final(px)@) == run(old(px)@, w, h, x, y, count as nat, 0, c0, c1),
{
    let mut k: u16 = 0;
    let mut xx = x;
    while k < count
        invariant
            k <= count,
            run(old(px)@, w, h, x, y, count as nat, 0, c0, c1) == run(px@, w, h, xx, y, (count - k) as nat, k as nat, c0, c1),
        decreases count - k,
    {
        let c = if k % 2 == 0 { c0 } else { c1 };
        put_pixel(px, w, h, xx, y, c);
        xx = xx.wrapping_add(1);
        k = k + 1;
    }
    xx
}

fn raw_exec<P: Copy>(px: &mut Vec<P>, w: u32, h: u32, x: u32, y: u32, vals: &[u8], pal: &Vec<P>) -> (x2: u32)
    requires
        pal@.len() == 256,
    ensures
        (x2, final(px)@) == raw_run(old(px)@, w, h, x, y, vals@, pal@),
{
    let mut k: usize = 0;
    let mut xx = x;
    assert(vals@.skip(0) =~= vals@);
    while k < vals.len()
        invariant
            pal@.len() == 256,
            k <= vals@.len(),
            raw_run(old(px)@, w, h, x, y, vals@, pal@) == raw_run(px@, w, h, xx, y, vals@.skip(k as int), pal@),
        decreases vals@.len() - k,
    {
        let ghost rest = vals@.skip(k as int);
        put_pixel(px, w, h, xx, y, pal[vals[k] as usize]);
        xx = xx.wrapping_add(1);
        k = k + 1;
        assert(rest.skip(1) =~= vals@.skip(k as int));
    }
    xx
}

/// Carries out 8bpp RLE operations from `(0, 0)` on the pixels.
pub fn paint_rle8<P: Copy>(ops: &Vec<BmpRle8Op>, pal: &Vec<P>, w: u32, h: u32, px: &mut Vec<P>)
    requires
        pal@.len() == 256,
    ensures
        final(px)@ == paint_rle8_spec(ops@, pal@, w, h, 0, 0, old(px)@),
{
    let mut i: usize = 0;
    let mut x: u32 = 0;
    let mut y: u32 = 0;
    assert(ops@.skip(0) =~= ops@);
    while i < ops.len()
        invariant
            pal@.len() == 256,
            i <= ops@.len(),
            paint_rle8_spec(ops@, pal@, w, h, 0, 0, old(px)@) == paint_rle8_spec(ops@.skip(i as int), pal@, w, h, x, y, px@),
        decreases ops@.len() - i,
    {
        let ghost rest = ops@.skip(i as int);
        assert(rest[0] == ops@[i as int]);
        assert(rest.skip(1) =~= ops@.skip(i + 1));
        match ops[i] {
            BmpRle8Op::EndOfBmp => {
                return;
            },
            BmpRle8Op::Newline => {
                x = 0;
                y = y.wrapping_add(1);
            },
            BmpRle8Op::Run { count, index } => {
                let c = pal[index as usize];
                x = run_exec(px, w, h, x, y, count as u16, c, c);
            },
            BmpRle8Op::Delta { right, up } => {
                x = x.wrapping_add(right);
                y = y.wrapping_add(up);
            },
            BmpRle8Op::Raw2 { q, w: w2 } => {
                let vals: [u8; 2] = [q, w2];
                assert(vals@ =~= seq![q, w2]);
                x = raw_exec(px, w, h, x, y, vals.as_slice(), pal);
            },
            BmpRle8Op::Raw1 { q } => {
                let vals: [u8; 1] = [q];
                assert(vals@ =~= seq![q]);
                x = raw_exec(px, w, h, x, y, vals.as_slice(), pal);
            },
        }
        i = i + 1;
    }
    assert(ops@.skip(i as int) =~= Seq::<BmpRle8Op>::empty());
}

/// Carries out 4bpp RLE operations from `(0, 0)` on the pixels.
pub fn paint_rle4<P: Copy>(ops: &Vec<BmpRle4Op>, pal: &Vec<P>, w: u32, h: u32, px: &mut Vec<P>)
    requires
        pal@.len() == 256,
    ensures
        final(px)@ == paint_rle4_spec(ops@, pal@, w, h, 0, 0, old(px)@),
{
    let mut i: usize = 0;
    let mut x: u32 = 0;
    let mut y: u32 = 0;
    assert(ops@.skip(0) =~= ops@);
    while i < ops.len()
        invariant
            pal@.len() == 256,
            i <= ops@.len(),
            paint_rle4_spec(ops@, pal@, w, h, 0, 0, old(px)@) == paint_rle4_spec(ops@.skip(i as int), pal@, w, h, x, y, px@),
        decreases ops@.len() - i,
    {
        let ghost rest = ops@.skip(i as int);
        assert(rest[0] == ops@[i as int]);
        assert(rest.skip(1) =~= ops@.skip(i + 1));
        match ops[i] {
            BmpRle4Op::EndOfBmp => {
                return;
            },
            BmpRle4Op::Newline => {
                x = 0;
                y = y.wrapping_add(1);
            },
            BmpRle4Op::Run { count, index_h, index_l } => {
                let c0 = pal[index_h as usize];
                let c1 = pal[index_l as usize];
                x = run_exec(px, w, h, x, y, count as u16, c0, c1);
            },
            BmpRle4Op::Delta { right, up } => {
                x = x.wrapping_add(right);
                y = y.wrapping_add(up);
            },
            BmpRle4Op::Raw4 { a, b, c, d } => {
                let vals: [u8; 4] = [a, b, c, d];
                assert(vals@ =~= seq![a, b, c, d]);
                x = raw_exec(px, w, h, x, y, vals.as_slice(), pal);
            },
            BmpRle4Op::Raw3 { a, b, c } => {
                let vals: [u8; 3] = [a, b, c];
                assert(vals@ =~= seq![a, b, c]);
                x = raw_exec(px, w, h, x, y, vals.as_slice(), pal);
            },
            BmpRle4Op::Raw2 { a, b } => {
                let vals: [u8; 2] = [a, b];
                assert(vals@ =~= seq![a, b]);
                x = raw_exec(px, w, h, x, y, vals.as_slice(), pal);
            },
            BmpRle4Op::Raw1 { a } => {
                let vals: [u8; 1] = [a];
                assert(vals@ =~= seq![a]);
                x = raw_exec(px, w, h, x, y, vals.as_slice(), pal);
            },
        }
        i = i + 1;
    }
    assert(ops@.skip(i as int) =~= Seq::<BmpRle4Op>::empty());
}

} // verus!
