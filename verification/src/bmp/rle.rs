//! The BMP format's run-length encodings, decoded into operations.
//!
//! The data is read two bytes at a time. A non-zero first byte is the length
//! of a run of the palette index (or pair of 4-bit indexes) in the second
//! byte. A zero first byte is an escape: the second byte is 0 for the end of
//! a line, 1 for the end of the bitmap, 2 for a move right and up (by the two
//! bytes that follow), and otherwise the number of raw indexes that follow
//! (padded to whole byte pairs).
use vstd::prelude::*;

verus! {

/// Run-length encoded 8bpp operations. Decoding starts at (0,0), with the
/// origin in the lower left.
#[derive(Debug, Clone, Copy, PartialEq, Eq, Structural)]
pub enum BmpRle8Op {
    /// A run of `count` (never 0) entries, each of `index`.
    Run { count: u8, index: u8 },
    /// x = 0, y += 1.
    Newline,
    /// End of the RLE sequence.
    EndOfBmp,
    /// Adjust the current position right and up as specified.
    Delta { right: u32, up: u32 },
    /// Output two raw index values.
    Raw2 { q: u8, w: u8 },
    /// Output one raw index value.
    Raw1 { q: u8 },
}

/// Run-length encoded 4bpp operations. Decoding starts at (0,0), with the
/// origin in the lower left.
#[derive(Debug, Clone, Copy, PartialEq, Eq, Structural)]
pub enum BmpRle4Op {
    /// A run of `count` (never 0) entries, alternating `index_h` and `index_l`.
    Run { count: u8, index_h: u8, index_l: u8 },
    /// x = 0, y += 1.
    Newline,
    /// End of the RLE sequence.
    EndOfBmp,
    /// Adjust the current position right and up as specified.
    Delta { right: u32, up: u32 },
    /// Output four raw index values.
    Raw4 { a: u8, b: u8, c: u8, d: u8 },
    /// Output three raw index values.
    Raw3 { a: u8, b: u8, c: u8 },
    /// Output two raw index values.
    Raw2 { a: u8, b: u8 },
    /// Output one raw index value.
    Raw1 { a: u8 },
}

/// The 8bpp operations of `s` from byte `pos` on, with `raw` raw indexes
/// still to come. Decoding stops where a byte pair is missing.
pub open spec fn rle8_ops(s: Seq<u8>, pos: int, raw: u8) -> Seq<BmpRle8Op>
    decreases s.len() - pos,
{
    if pos < 0 || pos + 2 > s.len() {
        Seq::empty()
    } else if raw > 0 {
        let q = s[pos];
        let w = s[pos + 1];
        seq![if raw >= 2 { BmpRle8Op::Raw2 { q, w } } else { BmpRle8Op::Raw1 { q } }]
            + rle8_ops(s, pos + 2, if raw >= 2 { (raw - 2) as u8 } else { 0 })
    } else {
        let a = s[pos];
        let b = s[pos + 1];
        if a != 0 {
            seq![BmpRle8Op::Run { count: a, index: b }] + rle8_ops(s, pos + 2, 0)
        } else if b == 0 {
            seq![BmpRle8Op::Newline] + rle8_ops(s, pos + 2, 0)
        } else if b == 1 {
            seq![BmpRle8Op::EndOfBmp] + rle8_ops(s, pos + 2, 0)
        } else if pos + 4 > s.len() {
            Seq::empty()
        } else if b == 2 {
            seq![BmpRle8Op::Delta { right: s[pos + 2] as u32, up: s[pos + 3] as u32 }] + rle8_ops(s, pos + 4, 0)
        } else {
            seq![BmpRle8Op::Raw2 { q: s[pos + 2], w: s[pos + 3] }] + rle8_ops(s, pos + 4, (b - 2) as u8)
        }
    }
}

/// Raw 4-bit indexes from the pair `q`, `w`: as many as `raw` says (at most
/// four).
pub open spec fn rle4_raw(raw: u8, q: u8, w: u8) -> BmpRle4Op {
    if raw == 1 {
        BmpRle4Op::Raw1 { a: q >> 4u8 }
    } else if raw == 2 {
        BmpRle4Op::Raw2 { a: q >> 4u8, b: q & 15u8 }
    } else if raw == 3 {
        BmpRle4Op::Raw3 { a: q >> 4u8, b: q & 15u8, c: w >> 4u8 }
    } else {
        BmpRle4Op::Raw4 { a: q >> 4u8, b: q & 15u8, c: w >> 4u8, d: w & 15u8 }
    }
}

/// The 4bpp operations of `s` from byte `pos` on, with `raw` raw indexes
/// still to come. Each byte pair of raw data gives up to four indexes, as
/// many as are still to come.
pub open spec fn rle4_ops(s: Seq<u8>, pos: int, raw: u8) -> Seq<BmpRle4Op>
    decreases s.len() - pos,
{
    if pos < 0 || pos + 2 > s.len() {
        Seq::empty()
    } else if raw > 0 {
        seq![rle4_raw(raw, s[pos], s[pos + 1])] + rle4_ops(s, pos + 2, if raw >= 4 { (raw - 4) as u8 } else { 0 })
    } else {
        let a = s[pos];
        let b = s[pos + 1];
        if a != 0 {
            seq![BmpRle4Op::Run { count: a, index_h: b >> 4u8, index_l: b & 15u8 }] + rle4_ops(s, pos + 2, 0)
        } else if b == 0 {
            seq![BmpRle4Op::Newline] + rle4_ops(s, pos + 2, 0)
        } else if b == 1 {
            seq![BmpRle4Op::EndOfBmp] + rle4_ops(s, pos + 2, 0)
        } else if pos + 4 > s.len() {
            Seq::empty()
        } else if b == 2 {
            seq![BmpRle4Op::Delta { right: s[pos + 2] as u32, up: s[pos + 3] as u32 }] + rle4_ops(s, pos + 4, 0)
        } else {
            seq![rle4_raw(b, s[pos + 2], s[pos + 3])] + rle4_ops(s, pos + 4, if b >= 4 { (b - 4) as u8 } else { 0 })
        }
    }
}

/// Decodes RLE encoded data, 8 bits per pixel, into its operations.
pub fn bmp_iter_rle8(image_bytes: &[u8]) -> (ops: Vec<BmpRle8Op>)
    ensures
        ops@ == rle8_ops(image_bytes@, 0, 0),
{
    let s = image_bytes;
    let n = s.len();
    let mut ops: Vec<BmpRle8Op> = Vec::new();
    let mut pos: usize = 0;
    let mut raw: u8 = 0;
    while n - pos >= 2
        invariant
            n == s@.len(),
            s@ == image_bytes@,
            pos <= n,
            ops@ + rle8_ops(s@, pos as int, raw) == rle8_ops(s@, 0, 0),
        decreases n - pos,
    {
        let ghost before = ops@;
        let ghost rest = rle8_ops(s@, pos as int, raw);
        if raw > 0 {
            let q = s[pos];
            let w = s[pos + 1];
            if raw >= 2 {
                ops.push(BmpRle8Op::Raw2 { q, w });
                raw = raw - 2;
            } else {
                ops.push(BmpRle8Op::Raw1 { q });
                raw = 0;
            }
            pos = pos + 2;
        } else {
            let a = s[pos];
            let b = s[pos + 1];
            if a != 0 {
                ops.push(BmpRle8Op::Run { count: a, index: b });
                pos = pos + 2;
            } else if b == 0 {
                ops.push(BmpRle8Op::Newline);
                pos = pos + 2;
            } else if b == 1 {
                ops.push(BmpRle8Op::EndOfBmp);
                pos = pos + 2;
            } else if n - pos < 4 {
                assert(rest =~= Seq::<BmpRle8Op>::empty());
                assert(ops@ =~= rle8_ops(s@, 0, 0));
                return ops;
            } else if b == 2 {
                ops.push(BmpRle8Op::Delta { right: s[pos + 2] as u32, up: s[pos + 3] as u32 });
                pos = pos + 4;
            } else {
                ops.push(BmpRle8Op::Raw2 { q: s[pos + 2], w: s[pos + 3] });
                raw = b - 2;
                pos = pos + 4;
            }
        }
        proof {
            assert(ops@ + rle8_ops(s@, pos as int, raw) =~= before + rest);
        }
    }
    assert(ops@ =~= rle8_ops(s@, 0, 0));
    ops
}

/// The operation for the raw 4-bit indexes of the pair `q`, `w`, of which
/// `count` are still to come.
fn raw_indexes(count: u8, q: u8, w: u8) -> (op: BmpRle4Op)
    ensures
        op == rle4_raw(count, q, w),
{
    if count == 1 {
        BmpRle4Op::Raw1 { a: q >> 4u8 }
    } else if count == 2 {
        BmpRle4Op::Raw2 { a: q >> 4u8, b: q & 15 }
    } else if count == 3 {
        BmpRle4Op::Raw3 { a: q >> 4u8, b: q & 15, c: w >> 4u8 }
    } else {
        BmpRle4Op::Raw4 { a: q >> 4u8, b: q & 15, c: w >> 4u8, d: w & 15 }
    }
}

/// Decodes RLE encoded data, 4 bits per pixel, into its operations.
pub fn bmp_iter_rle4(image_bytes: &[u8]) -> (ops: Vec<BmpRle4Op>)
    ensures
        ops@ == rle4_ops(image_bytes@, 0, 0),
{
    let s = image_bytes;
    let n = s.len();
    let mut ops: Vec<BmpRle4Op> = Vec::new();
    let mut pos: usize = 0;
    let mut raw: u8 = 0;
    while n - pos >= 2
        invariant
            n == s@.len(),
            s@ == image_bytes@,
            pos <= n,
            ops@ + rle4_ops(s@, pos as int, raw) == rle4_ops(s@, 0, 0),
        decreases n - pos,
    {
        let ghost before = ops@;
        let ghost rest = rle4_ops(s@, pos as int, raw);
        if raw > 0 {
            let q = s[pos];
            let w = s[pos + 1];
            ops.push(raw_indexes(raw, q, w));
            raw = if raw >= 4 { raw - 4 } else { 0 };
            pos = pos + 2;
        } else {
            let a = s[pos];
            let b = s[pos + 1];
            if a != 0 {
                ops.push(BmpRle4Op::Run { count: a, index_h: b >> 4u8, index_l: b & 15 });
                pos = pos + 2;
            } else if b == 0 {
                ops.push(BmpRle4Op::Newline);
                pos = pos + 2;
            } else if b == 1 {
                ops.push(BmpRle4Op::EndOfBmp);
                pos = pos + 2;
            } else if n - pos < 4 {
                assert(rest =~= Seq::<BmpRle4Op>::empty());
                assert(ops@ =~= rle4_ops(s@, 0, 0));
                return ops;
            } else if b == 2 {
                ops.push(BmpRle4Op::Delta { right: s[pos + 2] as u32, up: s[pos + 3] as u32 });
                pos = pos + 4;
            } else {
                let q = s[pos + 2];
                let w = s[pos + 3];
                ops.push(raw_indexes(b, q, w));
                raw = if b >= 4 { b - 4 } else { 0 };
                pos = pos + 4;
            }
        }
        proof {
            assert(ops@ + rle4_ops(s@, pos as int, raw) =~= before + rest);
        }
    }
    assert(ops@ =~= rle4_ops(s@, 0, 0));
    ops
}

} // verus!
