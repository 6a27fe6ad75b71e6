//! A decoded deflate symbol packed into one `usize`: a literal byte, the end
//! of a block, or a back reference (length and distance).
use vstd::prelude::*;

verus! {

/// A literal (below 256), the end of block (256), or a back reference with
/// the length in the bits above 16 and the distance in the low 16 bits.
#[derive(Debug, Clone, Copy)]
pub struct HuffSymbol(usize);

impl HuffSymbol {
    /// The packed value.
    pub closed spec fn view(self) -> nat {
        self.0 as nat
    }

    /// The symbol for a literal byte.
    pub fn literal(lit: u8) -> (s: Self)
        ensures
            s@ == lit as nat,
    {
        HuffSymbol(lit as usize)
    }

    /// The literal byte, if this is a literal.
    pub fn get_literal(self) -> (r: Option<u8>)
        ensures
            r == (if self@ < 256 { Some(self@ as u8) } else { None::<u8> }),
    {
        if self.0 < 256 {
            Some(self.0 as u8)
        } else {
            None
        }
    }

    /// The end-of-block symbol.
    pub fn end_of_block() -> (s: Self)
        ensures
            s@ == 256,
    {
        HuffSymbol(256)
    }

    /// If this is the end-of-block symbol.
    pub fn is_end_of_block(self) -> (b: bool)
        ensures
            b == (self@ == 256),
    {
        self.0 == 256
    }

    /// The symbol for a back reference of length `len` (3 to 258) to the
    /// data `dist` (1 to 32768) bytes back.
    pub fn back_ref(len: usize, dist: usize) -> (s: Self)
        requires
            3 <= len <= 258,
            1 <= dist <= 32_768,
        ensures
            s@ == len * 0x1_0000 + dist,
    {
        assert((len << 16usize) | dist == len * 0x1_0000 + dist) by (bit_vector)
            requires
                len <= 258,
                dist <= 32_768,
        ;
        HuffSymbol(len << 16usize | dist)
    }

    /// The length and distance of a back reference.
    pub fn get_back_ref(self) -> (r: (usize, usize))
        ensures
            r.0 == self@ / 0x1_0000,
            r.1 == self@ % 0x1_0000,
    {
        let v = self.0;
        assert(v >> 16usize == v / 0x1_0000 && (v & 0xFFFFusize) == v % 0x1_0000) by (bit_vector);
        (v >> 16usize, v & 0xFFFF)
    }
}

/// Unpacking a back reference gives back the length and distance it was
/// packed from: `get_back_ref(back_ref(len, dist)) == (len, dist)`.
pub proof fn lemma_back_ref_round_trip(len: nat, dist: nat)
    requires
        3 <= len <= 258,
        1 <= dist <= 32_768,
    ensures
        (len * 0x1_0000 + dist) / 0x1_0000 == len,
        (len * 0x1_0000 + dist) % 0x1_0000 == dist,
{
    vstd::arithmetic::div_mod::lemma_div_multiples_vanish_fancy(len as int, dist as int, 0x1_0000);
    vstd::arithmetic::div_mod::lemma_fundamental_div_mod((len * 0x1_0000 + dist) as int, 0x1_0000);
}

} // verus!
