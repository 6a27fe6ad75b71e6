//! Big-endian integers stored as byte arrays (alignment 1).
use vstd::prelude::*;

verus! {

/// The value of two bytes read big-endian.
pub open spec fn be16(b0: u8, b1: u8) -> int {
    b0 as int * 256 + b1 as int
}

/// The value of four bytes read big-endian.
pub open spec fn be32(b0: u8, b1: u8, b2: u8, b3: u8) -> int {
    ((b0 as int * 256 + b1 as int) * 256 + b2 as int) * 256 + b3 as int
}

/// Two bytes are the only big-endian spelling of their value, so going from
/// bytes to a `u16` and back gives the same bytes.
pub proof fn lemma_be16_unique(a0: u8, a1: u8, b0: u8, b1: u8)
    requires
        be16(a0, a1) == be16(b0, b1),
    ensures
        a0 == b0,
        a1 == b1,
{
    assert(a0 == b0 && a1 == b1) by (nonlinear_arith)
        requires
            a0 as int * 256 + a1 as int == b0 as int * 256 + b1 as int,
            0 <= a1 < 256,
            0 <= b1 < 256,
    ;
}

/// Four bytes are the only big-endian spelling of their value, so going from
/// bytes to a `u32` and back gives the same bytes.
pub proof fn lemma_be32_unique(a0: u8, a1: u8, a2: u8, a3: u8, b0: u8, b1: u8, b2: u8, b3: u8)
    requires
        be32(a0, a1, a2, a3) == be32(b0, b1, b2, b3),
    ensures
        a0 == b0,
        a1 == b1,
        a2 == b2,
        a3 == b3,
{
    let ha = (a0 as int * 256 + a1 as int) * 256 + a2 as int;
    let hb = (b0 as int * 256 + b1 as int) * 256 + b2 as int;
    assert(ha == hb && a3 == b3) by (nonlinear_arith)
        requires
            ha * 256 + a3 as int == hb * 256 + b3 as int,
            0 <= a3 < 256,
            0 <= b3 < 256,
    ;
    let ma = a0 as int * 256 + a1 as int;
    let mb = b0 as int * 256 + b1 as int;
    assert(ma == mb && a2 == b2) by (nonlinear_arith)
        requires
            ma * 256 + a2 as int == mb * 256 + b2 as int,
            0 <= a2 < 256,
            0 <= b2 < 256,
    ;
    lemma_be16_unique(a0, a1, b0, b1);
}

/// Combines two bytes, high byte first.
pub fn u16_from_be(b0: u8, b1: u8) -> (v: u16)
    ensures
        v as int == be16(b0, b1),
{
    assert((b0 as u16) << 8u16 == (b0 as u16) * 256 && ((b0 as u16) << 8u16) | (b1 as u16) == ((b0 as u16) << 8u16) + (b1 as u16)) by (bit_vector);
    ((b0 as u16) << 8u16) | (b1 as u16)
}

/// Combines four bytes, high byte first.
pub fn u32_from_be(b0: u8, b1: u8, b2: u8, b3: u8) -> (v: u32)
    ensures
        v as int == be32(b0, b1, b2, b3),
{
    let v = ((b0 as u32) << 24u32) | ((b1 as u32) << 16u32) | ((b2 as u32) << 8u32) | (b3 as u32);
    assert(v == ((b0 as u32) << 24u32) | ((b1 as u32) << 16u32) | ((b2 as u32) << 8u32) | (b3 as u32));
    assert(((b0 as u32) << 24u32) | ((b1 as u32) << 16u32) | ((b2 as u32) << 8u32) | (b3 as u32)
        == (b0 as u32) * 0x1000000 + (b1 as u32) * 0x10000 + (b2 as u32) * 0x100 + (b3 as u32)) by (bit_vector);
    v
}

/// A `u16` stored as big-endian bytes.
///
/// This stores only an array of bytes, so unlike a normal `u16` it has an
/// alignment of 1.
#[derive(Clone, Copy, Default, PartialEq, Eq, Hash, Debug)]
pub struct U16BE(pub(crate) [u8; 2]);

impl U16BE {
    /// The bytes, high byte first.
    pub closed spec fn bytes(self) -> Seq<u8> {
        self.0@
    }

    /// Convert this value to a native `u16`.
    pub fn to_u16(self) -> (v: u16)
        ensures
            v as int == be16(self.bytes()[0], self.bytes()[1]),
    {
        u16_from_be(self.0[0], self.0[1])
    }

    /// Make a value from a native `u16`.
    pub fn from_u16(u: u16) -> (out: Self)
        ensures
            out.bytes().len() == 2,
            be16(out.bytes()[0], out.bytes()[1]) == u as int,
    {
        let hi = (u >> 8u16) as u8;
        let lo = (u & 0xFF) as u8;
        assert(hi as int * 256 + lo as int == u as int && hi == (u >> 8u16) as u8 && lo == (u & 0xFF) as u8) by (bit_vector)
            requires hi == (u >> 8u16) as u8, lo == (u & 0xFF) as u8;
        U16BE([hi, lo])
    }
}

/// A `u32` stored as big-endian bytes.
///
/// This stores only an array of bytes, so unlike a normal `u32` it has an
/// alignment of 1.
#[derive(Clone, Copy, Default, PartialEq, Eq, Hash, Debug)]
pub struct U32BE(pub(crate) [u8; 4]);

impl U32BE {
    /// The bytes, high byte first.
    pub closed spec fn bytes(self) -> Seq<u8> {
        self.0@
    }

    /// Convert this value to a native `u32`.
    pub fn to_u32(self) -> (v: u32)
        ensures
            v as int == be32(self.bytes()[0], self.bytes()[1], self.bytes()[2], self.bytes()[3]),
    {
        u32_from_be(self.0[0], self.0[1], self.0[2], self.0[3])
    }

    /// Make a value from a native `u32`.
    pub fn from_u32(u: u32) -> (out: Self)
        ensures
            out.bytes().len() == 4,
            be32(out.bytes()[0], out.bytes()[1], out.bytes()[2], out.bytes()[3]) == u as int,
    {
        let b0 = (u >> 24u32) as u8;
        let b1 = ((u >> 16u32) & 0xFF) as u8;
        let b2 = ((u >> 8u32) & 0xFF) as u8;
        let b3 = (u & 0xFF) as u8;
        assert(((b0 as int * 256 + b1 as int) * 256 + b2 as int) * 256 + b3 as int == u as int) by (bit_vector)
            requires
                b0 == (u >> 24u32) as u8,
                b1 == ((u >> 16u32) & 0xFF) as u8,
                b2 == ((u >> 8u32) & 0xFF) as u8,
                b3 == (u & 0xFF) as u8;
        U32BE([b0, b1, b2, b3])
    }
}

} // verus!
