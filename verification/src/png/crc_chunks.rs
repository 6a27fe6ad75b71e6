//! Walking the chunks of a PNG file after checking its signature, and the
//! CRC-32 that each chunk carries.
use vstd::prelude::*;
use crate::int_endian::{be32, u32_from_be};
use crate::png::png_error::{PngError, PngResult};

verus! {

/// The four type bytes of a chunk.
#[derive(Debug, Clone, Copy, PartialEq, Eq)]
pub struct ChunkType(pub [u8; 4]);

impl ChunkType {
    /// Bit 5 of the first type byte.
    pub fn is_critical(self) -> (b: bool)
        ensures
            b == ((self.0@[0] & 32u8) > 0),
    {
        (self.0[0] & 32) > 0
    }

    /// Bit 5 of the second type byte.
    pub fn is_public(self) -> (b: bool)
        ensures
            b == ((self.0@[1] & 32u8) > 0),
    {
        (self.0[1] & 32) > 0
    }

    /// Bit 5 of the third type byte.
    pub fn is_not_reserved(self) -> (b: bool)
        ensures
            b == ((self.0@[2] & 32u8) > 0),
    {
        (self.0[2] & 32) > 0
    }

    /// Bit 5 of the fourth type byte.
    pub fn is_trouble_to_copy(self) -> (b: bool)
        ensures
            b == ((self.0@[3] & 32u8) > 0),
    {
        (self.0[3] & 32) > 0
    }

    /// The type of an `IDAT` chunk.
    pub fn idat() -> (t: Self)
        ensures
            t.0@ == seq![73u8, 68u8, 65u8, 84u8],
    {
        let t = ChunkType([73u8, 68u8, 65u8, 84u8]);
        assert(t.0@ =~= seq![73u8, 68u8, 65u8, 84u8]);
        t
    }
}

/// One step of the CRC-32 (reflected, polynomial `0xedb88320`) bit loop.
pub open spec fn crc_bit_step(c: u32) -> u32 {
    if c & 1 != 0 { 0xedb88320u32 ^ (c >> 1u32) } else { c >> 1u32 }
}

/// `crc_bit_step` applied `k` times.
pub open spec fn crc_bit_steps(c: u32, k: nat) -> u32
    decreases k,
{
    if k == 0 { c } else { crc_bit_step(crc_bit_steps(c, (k - 1) as nat)) }
}

/// The CRC table entry for byte value `n`.
pub open spec fn crc_table_entry(n: u32) -> u32 {
    crc_bit_steps(n, 8)
}

/// The running CRC after feeding `bytes` into `crc`.
pub open spec fn crc_update(crc: u32, bytes: Seq<u8>) -> u32
    decreases bytes.len(),
{
    if bytes.len() == 0 {
        crc
    } else {
        let c = crc_update(crc, bytes.drop_last());
        crc_table_entry((c ^ (bytes.last() as u32)) & 0xFF) ^ (c >> 8u32)
    }
}

/// The CRC-32 of `bytes`.
pub open spec fn crc32(bytes: Seq<u8>) -> u32 {
    crc_update(0xFFFF_FFFFu32, bytes) ^ 0xFFFF_FFFFu32
}

fn make_crc_table() -> (t: Vec<u32>)
    ensures
        t@.len() == 256,
        forall|n: int| 0 <= n < 256 ==> #[trigger] t@[n] == crc_table_entry(n as u32),
{
    let mut table: Vec<u32> = Vec::new();
    let mut n: u32 = 0;
    while n < 256
        invariant
            n <= 256,
            table@.len() == n,
            forall|i: int| 0 <= i < n ==> #[trigger] table@[i] == crc_table_entry(i as u32),
        decreases 256 - n,
    {
        let mut c = n;
        let mut k: u32 = 0;
        while k < 8
            invariant
                k <= 8,
                c == crc_bit_steps(n, k as nat),
            decreases 8 - k,
        {
            c = if c & 1 != 0 { 0xedb88320u32 ^ (c >> 1u32) } else { c >> 1u32 };
            k = k + 1;
        }
        table.push(c);
        n = n + 1;
    }
    table
}

/// A chunk of a PNG: its type, data and the CRC written after it.
#[derive(Debug, Clone, Copy)]
pub struct PngChunk<'b> {
    /// The length field.
    pub length: u32,
    /// The type bytes.
    pub chunk_type: ChunkType,
    /// The data bytes.
    pub chunk_data: &'b [u8],
    /// The CRC written in the file.
    pub declared_crc: u32,
}

impl<'b> PngChunk<'b> {
    /// The CRC-32 of the chunk's type and data bytes.
    pub fn get_actual_crc(&self) -> (c: u32)
        ensures
            c == crc32(self.chunk_type.0@ + self.chunk_data@),
    {
        let table = make_crc_table();
        let ty: &[u8] = self.chunk_type.0.as_slice();
        let crc = crc_feed(&table, 0xFFFF_FFFF, ty);
        let crc = crc_feed(&table, crc, self.chunk_data);
        proof {
            lemma_crc_update_concat(0xFFFF_FFFFu32, self.chunk_type.0@, self.chunk_data@);
        }
        crc ^ 0xFFFF_FFFF
    }
}

proof fn lemma_crc_update_concat(c: u32, a: Seq<u8>, b: Seq<u8>)
    ensures
        crc_update(c, a + b) == crc_update(crc_update(c, a), b),
    decreases b.len(),
{
    if b.len() == 0 {
        assert(a + b =~= a);
    } else {
        assert((a + b).drop_last() =~= a + b.drop_last());
        lemma_crc_update_concat(c, a, b.drop_last());
    }
}

fn crc_feed(table: &Vec<u32>, crc0: u32, bytes: &[u8]) -> (c: u32)
    requires
        table@.len() == 256,
        forall|n: int| 0 <= n < 256 ==> #[trigger] table@[n] == crc_table_entry(n as u32),
    ensures
        c == crc_update(crc0, bytes@),
{
    let mut crc = crc0;
    let mut i: usize = 0;
    while i < bytes.len()
        invariant
            table@.len() == 256,
            forall|n: int| 0 <= n < 256 ==> #[trigger] table@[n] == crc_table_entry(n as u32),
            i <= bytes@.len(),
            crc == crc_update(crc0, bytes@.take(i as int)),
        decreases bytes@.len() - i,
    {
        let b = bytes[i];
        let idx = (crc ^ (b as u32)) & 0xFF;
        assert(idx < 256) by (bit_vector)
            requires
                idx == (crc ^ (b as u32)) & 0xFF,
        ;
        proof {
            assert(bytes@.take(i + 1).drop_last() =~= bytes@.take(i as int));
        }
        crc = table[idx as usize] ^ (crc >> 8u32);
        i = i + 1;
    }
    proof {
        assert(bytes@.take(bytes@.len() as int) =~= bytes@);
    }
    crc
}

/// The spec's view of a chunk: type bytes, data bytes, declared CRC.
pub type ChunkParts = (Seq<u8>, Seq<u8>, u32);

/// One step of walking the chunks in `s`: the chunk at the front (if it is
/// complete) and what is left to walk. An incomplete chunk ends the walk.
pub open spec fn chunk_walk_step(s: Seq<u8>) -> (Option<ChunkParts>, Seq<u8>) {
    if s.len() < 8 {
        (None, Seq::empty())
    } else {
        let len = be32(s[0], s[1], s[2], s[3]);
        let rest = s.skip(8);
        if rest.len() < len + 4 {
            (None, Seq::empty())
        } else {
            let crc_at = len;
            (Some((s.subrange(4, 8), rest.take(len), be32(rest[crc_at], rest[crc_at + 1], rest[crc_at + 2], rest[crc_at + 3]) as u32)),
                rest.skip(len + 4))
        }
    }
}

/// Each chunk walked over shortens what is left to walk.
pub proof fn lemma_walk_step_shrinks(s: Seq<u8>)
    ensures
        chunk_walk_step(s).0 is Some ==> chunk_walk_step(s).1.len() < s.len(),
{
}

/// The eight signature bytes of every PNG file.
pub open spec fn png_signature() -> Seq<u8> {
    seq![137u8, 80u8, 78u8, 71u8, 13u8, 10u8, 26u8, 10u8]
}

/// Walks the chunks of a PNG's bytes.
#[derive(Debug, Clone)]
pub struct PngChunkIter<'b> {
    bytes: &'b [u8],
}

impl<'b> PngChunkIter<'b> {
    /// The bytes still to walk.
    pub closed spec fn remaining(&self) -> Seq<u8> {
        self.bytes@
    }

    /// Checks the PNG signature and starts walking the chunks after it.
    pub fn from_png_bytes(bytes: &'b [u8]) -> (r: PngResult<Self>)
        ensures
            bytes@.len() < 8 ==> r == Err::<Self, PngError>(PngError::UnexpectedEndOfInput),
            bytes@.len() >= 8 && bytes@.take(8) != png_signature() ==> r == Err::<Self, PngError>(PngError::NoPngSignature),
            bytes@.len() >= 8 && bytes@.take(8) == png_signature() ==> (r matches Ok(it) && it.remaining() == bytes@.skip(8)),
    {
        if bytes.len() < 8 {
            return Err(PngError::UnexpectedEndOfInput);
        }
        let sig: [u8; 8] = [137, 80, 78, 71, 13, 10, 26, 10];
        let mut i: usize = 0;
        while i < 8
            invariant
                i <= 8,
                bytes@.len() >= 8,
                sig@ == png_signature(),
                forall|j: int| 0 <= j < i ==> bytes@[j] == png_signature()[j],
            decreases 8 - i,
        {
            if bytes[i] != sig[i] {
                assert(bytes@.take(8)[i as int] != png_signature()[i as int]);
                return Err(PngError::NoPngSignature);
            }
            i = i + 1;
        }
        assert(bytes@.take(8) =~= png_signature());
        Ok(PngChunkIter { bytes: vstd::slice::slice_subrange(bytes, 8, bytes.len()) })
    }

    /// The next complete chunk; once an incomplete one is met, nothing more
    /// is produced.
    pub fn next(&mut self) -> (r: Option<PngChunk<'b>>)
        ensures
            final(self).remaining() == chunk_walk_step(old(self).remaining()).1,
            match r {
                Some(c) => chunk_walk_step(old(self).remaining()).0 == Some((c.chunk_type.0@, c.chunk_data@, c.declared_crc))
                    && c.length == c.chunk_data@.len(),
                None => chunk_walk_step(old(self).remaining()).0 is None,
            },
    {
        let s = self.bytes;
        let empty: &'b [u8] = vstd::slice::slice_subrange(s, s.len(), s.len());
        assert(empty@ =~= Seq::<u8>::empty());
        if s.len() < 8 {
            self.bytes = empty;
            return None;
        }
        let length = u32_from_be(s[0], s[1], s[2], s[3]);
        let chunk_type = ChunkType([s[4], s[5], s[6], s[7]]);
        assert(chunk_type.0@ =~= s@.subrange(4, 8));
        let rest = vstd::slice::slice_subrange(s, 8, s.len());
        assert(rest@ =~= s@.skip(8));
        if rest.len() < 4 || rest.len() - 4 < length as usize {
            self.bytes = empty;
            return None;
        }
        let n = length as usize;
        let chunk_data = vstd::slice::slice_subrange(rest, 0, n);
        let declared_crc = u32_from_be(rest[n], rest[n + 1], rest[n + 2], rest[n + 3]);
        self.bytes = vstd::slice::slice_subrange(rest, n + 4, rest.len());
        assert(chunk_data@ =~= rest@.take(n as int));
        assert(self.bytes@ =~= rest@.skip(n + 4));
        Some(PngChunk { length, chunk_type, chunk_data, declared_crc })
    }
}

} // verus!
