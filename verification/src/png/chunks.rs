//! Splitting PNG bytes into chunks, and parsing the chunks this library uses.
use vstd::prelude::*;
use crate::int_endian::{be32, be16, u32_from_be, u16_from_be};
use crate::pixel_formats::RGB888;

verus! {

/// A chunk as the spec sees it: the 4 type bytes, the data bytes, and the
/// declared CRC.
pub type ChunkModel = (Seq<u8>, Seq<u8>, u32);

/// The tag bytes of each chunk kind this library understands.
pub open spec fn tag_ihdr() -> Seq<u8> { seq![73u8, 72u8, 68u8, 82u8] }
pub open spec fn tag_plte() -> Seq<u8> { seq![80u8, 76u8, 84u8, 69u8] }
pub open spec fn tag_idat() -> Seq<u8> { seq![73u8, 68u8, 65u8, 84u8] }
pub open spec fn tag_iend() -> Seq<u8> { seq![73u8, 69u8, 78u8, 68u8] }
pub open spec fn tag_trns() -> Seq<u8> { seq![116u8, 82u8, 78u8, 83u8] }

/// The big-endian `u32` at the front of `s`.
pub open spec fn be32_at(s: Seq<u8>, i: int) -> u32 {
    be32(s[i], s[i + 1], s[i + 2], s[i + 3]) as u32
}

/// One step of chunk iteration: the chunk at the front of `s` (if complete)
/// and what is left of `s` afterwards. A truncated chunk yields `None`, and
/// the bytes of the fields that were complete have still been consumed.
pub open spec fn spec_next_chunk(s: Seq<u8>) -> (Option<ChunkModel>, Seq<u8>) {
    if s.len() < 4 {
        (None, s)
    } else {
        let len = be32_at(s, 0) as int;
        let s1 = s.skip(4);
        if s1.len() < 4 {
            (None, s1)
        } else {
            let ty = s1.take(4);
            let s2 = s1.skip(4);
            if s2.len() < len {
                (None, s2)
            } else {
                let data = s2.take(len);
                let s3 = s2.skip(len);
                if s3.len() < 4 {
                    (None, s3)
                } else {
                    (Some((ty, data, be32_at(s3, 0))), s3.skip(4))
                }
            }
        }
    }
}

/// Every complete chunk in `s`, in order, up to the first truncated one.
pub open spec fn spec_chunks(s: Seq<u8>) -> Seq<ChunkModel>
    decreases s.len(),
{
    match spec_next_chunk(s).0 {
        Some(c) => {
            if spec_next_chunk(s).1.len() < s.len() {
                seq![c] + spec_chunks(spec_next_chunk(s).1)
            } else {
                seq![c]
            }
        },
        None => Seq::empty(),
    }
}

/// The bytes after the 8-byte PNG signature (or nothing, for shorter input).
pub open spec fn after_signature(bytes: Seq<u8>) -> Seq<u8> {
    if bytes.len() >= 8 {
        bytes.skip(8)
    } else {
        Seq::empty()
    }
}

/// An unparsed chunk from a PNG.
#[derive(Clone, Copy, Debug)]
pub struct PngRawChunk<'b> {
    type_: [u8; 4],
    data: &'b [u8],
    declared_crc: u32,
}

impl<'b> PngRawChunk<'b> {
    /// The chunk's type bytes, data and declared CRC.
    pub closed spec fn view(&self) -> ChunkModel {
        (self.type_@, self.data@, self.declared_crc)
    }

    /// The chunk's type bytes.
    pub fn chunk_type(&self) -> (t: [u8; 4])
        ensures
            t@ == self.view().0,
    {
        self.type_
    }

    /// The chunk's data bytes.
    pub fn data(&self) -> (d: &'b [u8])
        ensures
            d@ == self.view().1,
    {
        self.data
    }

    /// The CRC value written in the chunk.
    pub fn declared_crc(&self) -> (c: u32)
        ensures
            c == self.view().2,
    {
        self.declared_crc
    }
}

/// Produces successive raw chunks from PNG bytes.
#[derive(Debug, Clone)]
pub struct PngRawChunkIter<'b>(&'b [u8]);

impl<'b> PngRawChunkIter<'b> {
    /// The bytes not yet split into chunks.
    pub closed spec fn remaining(&self) -> Seq<u8> {
        self.0@
    }

    /// Pass the full PNG bytes; the 8 signature bytes are skipped (without
    /// being checked).
    pub fn new(bytes: &'b [u8]) -> (it: Self)
        ensures
            it.remaining() == after_signature(bytes@),
    {
        if bytes.len() >= 8 {
            PngRawChunkIter(vstd::slice::slice_subrange(bytes, 8, bytes.len()))
        } else {
            let empty: &[u8] = &[];
            assert(empty@ =~= Seq::<u8>::empty());
            PngRawChunkIter(empty)
        }
    }

    /// The next complete chunk, if any.
    pub fn next(&mut self) -> (r: Option<PngRawChunk<'b>>)
        ensures
            r matches Some(c) ==> spec_next_chunk(old(self).remaining()).0 == Some(c.view()),
            r is None ==> spec_next_chunk(old(self).remaining()).0 is None,
            final(self).remaining() == spec_next_chunk(old(self).remaining()).1,
    {
        let s = self.0;
        if s.len() < 4 {
            return None;
        }
        let chunk_len = u32_from_be(s[0], s[1], s[2], s[3]);
        let s1 = vstd::slice::slice_subrange(s, 4, s.len());
        self.0 = s1;
        assert(s1@ =~= s@.skip(4));
        if s1.len() < 4 {
            return None;
        }
        let type_: [u8; 4] = [s1[0], s1[1], s1[2], s1[3]];
        assert(type_@ =~= s1@.take(4));
        let s2 = vstd::slice::slice_subrange(s1, 4, s1.len());
        self.0 = s2;
        assert(s2@ =~= s1@.skip(4));
        if s2.len() < chunk_len as usize {
            return None;
        }
        let data = vstd::slice::slice_subrange(s2, 0, chunk_len as usize);
        let s3 = vstd::slice::slice_subrange(s2, chunk_len as usize, s2.len());
        self.0 = s3;
        assert(data@ =~= s2@.take(chunk_len as int));
        assert(s3@ =~= s2@.skip(chunk_len as int));
        if s3.len() < 4 {
            return None;
        }
        let declared_crc = u32_from_be(s3[0], s3[1], s3[2], s3[3]);
        let s4 = vstd::slice::slice_subrange(s3, 4, s3.len());
        self.0 = s4;
        assert(s4@ =~= s3@.skip(4));
        Some(PngRawChunk { type_, data, declared_crc })
    }
}

/// Whether the spec's chunk iteration makes progress (it always does when it
/// yields a chunk).
pub proof fn lemma_next_chunk_progress(s: Seq<u8>)
    ensures
        spec_next_chunk(s).0 is Some ==> spec_next_chunk(s).1.len() + 12 <= s.len(),
        spec_next_chunk(s).1.len() <= s.len(),
{
}

/// The types of color that PNG supports.
#[derive(Debug, Clone, Copy, PartialEq, Eq, Structural)]
pub enum PngColorType {
    /// Greyscale
    Y,
    /// Red, Green, Blue
    RGB,
    /// Index into a palette.
    Index,
    /// Greyscale + Alpha
    YA,
    /// Red, Green, Blue, Alpha
    RGBA,
}

/// The channel count of each color type.
pub open spec fn spec_channel_count(c: PngColorType) -> int {
    match c {
        PngColorType::Y => 1,
        PngColorType::RGB => 3,
        PngColorType::Index => 1,
        PngColorType::YA => 2,
        PngColorType::RGBA => 4,
    }
}

/// The color type written as `code` in an `IHDR`, if it is a legal one.
pub open spec fn spec_color_type(code: u8) -> Option<PngColorType> {
    if code == 0 {
        Some(PngColorType::Y)
    } else if code == 2 {
        Some(PngColorType::RGB)
    } else if code == 3 {
        Some(PngColorType::Index)
    } else if code == 4 {
        Some(PngColorType::YA)
    } else if code == 6 {
        Some(PngColorType::RGBA)
    } else {
        None
    }
}

impl PngColorType {
    /// The number of channels in this type of color.
    pub fn channel_count(self) -> (n: usize)
        ensures
            n == spec_channel_count(self),
    {
        match self {
            PngColorType::Y => 1,
            PngColorType::RGB => 3,
            PngColorType::Index => 1,
            PngColorType::YA => 2,
            PngColorType::RGBA => 4,
        }
    }

    /// The color type for a code byte, if it is a legal one.
    pub fn try_from_u8(value: u8) -> (r: Option<PngColorType>)
        ensures
            r == spec_color_type(value),
    {
        if value == 0 {
            Some(PngColorType::Y)
        } else if value == 2 {
            Some(PngColorType::RGB)
        } else if value == 3 {
            Some(PngColorType::Index)
        } else if value == 4 {
            Some(PngColorType::YA)
        } else if value == 6 {
            Some(PngColorType::RGBA)
        } else {
            None
        }
    }
}

/// Image Header
#[derive(Debug, Clone, Copy, PartialEq, Eq, Structural)]
pub struct IHDR {
    /// width in pixels
    pub width: u32,
    /// height in pixels
    pub height: u32,
    /// bits per channel
    pub bit_depth: u8,
    /// pixel color type
    pub color_type: PngColorType,
    /// if the image data is stored interlaced.
    pub is_interlaced: bool,
}

/// Which bit depths each color type allows.
pub open spec fn legal_depth(color_code: u8, depth: u8) -> bool {
    if color_code == 0 {
        depth == 1 || depth == 2 || depth == 4 || depth == 8 || depth == 16
    } else if color_code == 2 || color_code == 4 || color_code == 6 {
        depth == 8 || depth == 16
    } else if color_code == 3 {
        depth == 1 || depth == 2 || depth == 4 || depth == 8
    } else {
        false
    }
}

/// The header described by the 13 data bytes of an `IHDR` chunk, if they are
/// legal (compression and filter method bytes are ignored).
pub open spec fn spec_parse_ihdr(d: Seq<u8>) -> Option<IHDR> {
    if d.len() != 13 || !legal_depth(d[9], d[8]) || spec_color_type(d[9]) is None || !(d[12] == 0
        || d[12] == 1) {
        None
    } else {
        Some(
            IHDR {
                width: be32_at(d, 0),
                height: be32_at(d, 4),
                bit_depth: d[8],
                color_type: spec_color_type(d[9])->0,
                is_interlaced: d[12] == 1,
            },
        )
    }
}

/// The bits per pixel of a header.
pub open spec fn spec_bits_per_pixel(h: IHDR) -> int {
    h.bit_depth as int * spec_channel_count(h.color_type)
}

/// Bytes in one filter line (filter byte plus pixel bytes, rounded up) for a
/// given width.
pub open spec fn spec_bytes_per_filterline(h: IHDR, width: u32) -> int {
    1 + (spec_bits_per_pixel(h) * width + 7) / 8
}

impl IHDR {
    /// Parses the data of an `IHDR` chunk.
    pub fn try_from_bytes(value: &[u8]) -> (r: Option<IHDR>)
        ensures
            r == spec_parse_ihdr(value@),
    {
        if value.len() != 13 {
            return None;
        }
        let bit_depth = value[8];
        let color_code = value[9];
        let depth_ok = if color_code == 0 {
            bit_depth == 1 || bit_depth == 2 || bit_depth == 4 || bit_depth == 8 || bit_depth == 16
        } else if color_code == 2 || color_code == 4 || color_code == 6 {
            bit_depth == 8 || bit_depth == 16
        } else if color_code == 3 {
            bit_depth == 1 || bit_depth == 2 || bit_depth == 4 || bit_depth == 8
        } else {
            false
        };
        if !depth_ok {
            return None;
        }
        let color_type = match PngColorType::try_from_u8(color_code) {
            Some(c) => c,
            None => return None,
        };
        let is_interlaced = match value[12] {
            0 => false,
            1 => true,
            _ => return None,
        };
        Some(
            IHDR {
                width: u32_from_be(value[0], value[1], value[2], value[3]),
                height: u32_from_be(value[4], value[5], value[6], value[7]),
                bit_depth,
                color_type,
                is_interlaced,
            },
        )
    }

    /// The number of bits in one pixel.
    pub fn bits_per_pixel(&self) -> (n: usize)
        ensures
            n == spec_bits_per_pixel(*self),
    {
        (self.bit_depth as usize) * self.color_type.channel_count()
    }

    /// Each line is a filter byte (1) plus the pixel data, rounded up to a
    /// whole byte.
    pub fn bytes_per_filterline(&self, width: u32) -> (n: usize)
        requires
            spec_bits_per_pixel(*self) * width + 8 <= usize::MAX,
        ensures
            n == spec_bytes_per_filterline(*self, width),
    {
        let bpp = self.bits_per_pixel();
        assert(bpp * (width as usize) == spec_bits_per_pixel(*self) * width) by (nonlinear_arith)
            requires bpp == spec_bits_per_pixel(*self);
        1 + ((bpp * (width as usize)) + 7) / 8
    }
}

/// Transparency data
#[derive(Clone, Copy, Debug)]
#[allow(non_camel_case_types)]
pub struct tRNS<'b>(&'b [u8]);

impl<'b> tRNS<'b> {
    /// The chunk's bytes.
    pub closed spec fn view(&self) -> Seq<u8> {
        self.0@
    }

    /// Wraps the data of a transparency chunk.
    pub fn from_bytes(data: &'b [u8]) -> (t: Self)
        ensures
            t.view() == data@,
    {
        tRNS(data)
    }

    /// Gets the grayscale value that is transparent; fails when the chunk has
    /// the wrong length for grayscale.
    pub fn try_to_grayscale(&self) -> (r: Option<u16>)
        ensures
            r is Some <==> self.view().len() == 2,
            r matches Some(v) ==> v as int == be16(self.view()[0], self.view()[1]),
    {
        if self.0.len() == 2 {
            Some(u16_from_be(self.0[0], self.0[1]))
        } else {
            None
        }
    }

    /// Gets the RGB value that is transparent; fails when the chunk has the
    /// wrong length for rgb.
    pub fn try_to_rgb(&self) -> (r: Option<[u16; 3]>)
        ensures
            r is Some <==> self.view().len() == 6,
            r matches Some(v) ==> v[0] as int == be16(self.view()[0], self.view()[1]) && v[1] as int
                == be16(self.view()[2], self.view()[3]) && v[2] as int == be16(
                self.view()[4],
                self.view()[5],
            ),
    {
        if self.0.len() == 6 {
            Some(
                [
                    u16_from_be(self.0[0], self.0[1]),
                    u16_from_be(self.0[2], self.0[3]),
                    u16_from_be(self.0[4], self.0[5]),
                ],
            )
        } else {
            None
        }
    }

    /// Gets the alpha values for each palette index.
    pub fn to_alphas(&self) -> (a: &'b [u8])
        ensures
            a@ == self.view(),
    {
        self.0
    }
}

/// Palette data: RGB entries, 3 bytes each.
#[derive(Clone, Copy, Debug)]
pub struct PLTE<'b>(&'b [u8]);

/// The palette entries held by palette bytes.
pub open spec fn spec_palette_entries(d: Seq<u8>) -> Seq<RGB888> {
    Seq::new((d.len() / 3) as nat, |i: int| RGB888 { r: d[3 * i], g: d[3 * i + 1], b: d[3 * i + 2] })
}

impl<'b> PLTE<'b> {
    /// The chunk's bytes.
    pub closed spec fn view(&self) -> Seq<u8> {
        self.0@
    }

    /// The palette's bytes hold whole entries.
    pub closed spec fn wf(&self) -> bool {
        self.0@.len() % 3 == 0
    }

    /// Wraps palette bytes, which must hold whole entries.
    pub fn try_from_bytes(data: &'b [u8]) -> (r: Option<Self>)
        ensures
            r is Some <==> data@.len() % 3 == 0,
            r matches Some(p) ==> p.view() == data@ && p.wf(),
    {
        if data.len() % 3 == 0 {
            Some(PLTE(data))
        } else {
            None
        }
    }

    /// Gets the entries.
    pub fn entries(&self) -> (v: Vec<RGB888>)
        ensures
            v@ == spec_palette_entries(self.view()),
    {
        let len = self.0.len();
        let n = len / 3;
        let mut v: Vec<RGB888> = Vec::new();
        let mut i: usize = 0;
        while i < n
            invariant
                len == self.0@.len(),
                n == len / 3,
                i <= n,
                v@ =~= spec_palette_entries(self.0@).take(i as int),
            decreases n - i,
        {
            assert(3 * i + 2 < len) by (nonlinear_arith)
                requires
                    i < n,
                    n == len / 3,
            ;
            let k: usize = 3 * i;
            v.push(RGB888 { r: self.0[k], g: self.0[k + 1], b: self.0[k + 2] });
            i = i + 1;
        }
        v
    }
}

/// Image Data, zlib compressed. Multiple chunks form one zlib stream.
#[derive(Clone, Copy, Debug)]
pub struct IDAT<'b>(&'b [u8]);

impl<'b> IDAT<'b> {
    /// The chunk's bytes.
    pub closed spec fn view(&self) -> Seq<u8> {
        self.0@
    }

    /// Wraps image data bytes.
    pub fn from_bytes(data: &'b [u8]) -> (t: Self)
        ensures
            t.view() == data@,
    {
        IDAT(data)
    }

    /// The chunk's bytes.
    pub fn as_bytes(&self) -> (b: &'b [u8])
        ensures
            b@ == self.view(),
    {
        self.0
    }
}

/// A parsed PNG chunk
#[allow(non_camel_case_types)]
#[derive(Debug, Clone, Copy)]
pub enum PngChunk<'b> {
    /// Image Header
    IHDR(IHDR),
    /// Palette
    PLTE(PLTE<'b>),
    /// Transparency
    tRNS(tRNS<'b>),
    /// Image Data
    IDAT(IDAT<'b>),
    /// Image End
    IEND,
}

impl<'b> PngChunk<'b> {
    /// Parses a raw chunk; chunks of unknown type, and malformed headers or
    /// palettes, come back as the raw chunk.
    pub fn try_from_raw(raw: PngRawChunk<'b>) -> (r: Result<PngChunk<'b>, PngRawChunk<'b>>)
        ensures
            raw.view().0 == tag_ihdr() ==> match r {
                Ok(PngChunk::IHDR(h)) => spec_parse_ihdr(raw.view().1) == Some(h),
                Err(e) => e == raw && spec_parse_ihdr(raw.view().1) is None,
                _ => false,
            },
            raw.view().0 == tag_plte() ==> match r {
                Ok(PngChunk::PLTE(p)) => p.view() == raw.view().1 && p.wf(),
                Err(e) => e == raw && raw.view().1.len() % 3 != 0,
                _ => false,
            },
            raw.view().0 == tag_trns() ==> (r matches Ok(PngChunk::tRNS(t)) && t.view() == raw.view().1),
            raw.view().0 == tag_idat() ==> (r matches Ok(PngChunk::IDAT(t)) && t.view() == raw.view().1),
            raw.view().0 == tag_iend() ==> r matches Ok(PngChunk::IEND),
            !(raw.view().0 == tag_ihdr() || raw.view().0 == tag_plte() || raw.view().0 == tag_trns()
                || raw.view().0 == tag_idat() || raw.view().0 == tag_iend()) ==> r == Err::<
                PngChunk<'b>,
                PngRawChunk<'b>,
            >(raw),
    {
        let t = raw.type_;
        assert(t@ == raw.view().0);
        if t[0] == 73 && t[1] == 72 && t[2] == 68 && t[3] == 82 {
            assert(t@ =~= tag_ihdr());
            match IHDR::try_from_bytes(raw.data) {
                Some(h) => Ok(PngChunk::IHDR(h)),
                None => Err(raw),
            }
        } else if t[0] == 80 && t[1] == 76 && t[2] == 84 && t[3] == 69 {
            assert(t@ =~= tag_plte());
            assert(t@ != tag_ihdr());
            match PLTE::try_from_bytes(raw.data) {
                Some(p) => Ok(PngChunk::PLTE(p)),
                None => Err(raw),
            }
        } else if t[0] == 116 && t[1] == 82 && t[2] == 78 && t[3] == 83 {
            assert(t@ =~= tag_trns());
            assert(t@ != tag_ihdr() && t@ != tag_plte());
            Ok(PngChunk::tRNS(tRNS(raw.data)))
        } else if t[0] == 73 && t[1] == 68 && t[2] == 65 && t[3] == 84 {
            assert(t@ =~= tag_idat());
            assert(t@ != tag_ihdr() && t@ != tag_plte() && t@ != tag_trns());
            Ok(PngChunk::IDAT(IDAT(raw.data)))
        } else if t[0] == 73 && t[1] == 69 && t[2] == 78 && t[3] == 68 {
            assert(t@ =~= tag_iend());
            assert(t@ != tag_ihdr() && t@ != tag_plte() && t@ != tag_trns() && t@ != tag_idat());
            Ok(PngChunk::IEND)
        } else {
            assert(t@ != tag_ihdr()) by { assert(tag_ihdr()[0] == 73 && tag_ihdr()[3] == 82 && tag_ihdr()[1] == 72 && tag_ihdr()[2] == 68); }
            assert(t@ != tag_plte()) by { assert(tag_plte()[0] == 80 && tag_plte()[1] == 76 && tag_plte()[2] == 84 && tag_plte()[3] == 69); }
            assert(t@ != tag_trns()) by { assert(tag_trns()[0] == 116 && tag_trns()[1] == 82 && tag_trns()[2] == 78 && tag_trns()[3] == 83); }
            assert(t@ != tag_idat()) by { assert(tag_idat()[0] == 73 && tag_idat()[1] == 68 && tag_idat()[2] == 65 && tag_idat()[3] == 84); }
            assert(t@ != tag_iend()) by { assert(tag_iend()[0] == 73 && tag_iend()[1] == 69 && tag_iend()[2] == 78 && tag_iend()[3] == 68); }
            Err(raw)
        }
    }
}

/// Checks if the PNG's initial 8 bytes are correct.
pub fn is_png_header_correct(bytes: &[u8]) -> (b: bool)
    ensures
        b <==> bytes@.len() >= 8 && bytes@.take(8) == seq![137u8, 80u8, 78u8, 71u8, 13u8, 10u8, 26u8, 10u8],
{
    if bytes.len() >= 8 {
        let r = bytes[0] == 137 && bytes[1] == 80 && bytes[2] == 78 && bytes[3] == 71 && bytes[4] == 13
            && bytes[5] == 10 && bytes[6] == 26 && bytes[7] == 10;
        proof {
            let sig = seq![137u8, 80u8, 78u8, 71u8, 13u8, 10u8, 26u8, 10u8];
            if r {
                assert(bytes@.take(8) =~= sig);
            } else {
                if bytes@.take(8) == sig {
                    assert(bytes@.take(8)[0] == sig[0] && bytes@.take(8)[1] == sig[1] && bytes@.take(8)[2] == sig[2]
                        && bytes@.take(8)[3] == sig[3] && bytes@.take(8)[4] == sig[4] && bytes@.take(8)[5] == sig[5]
                        && bytes@.take(8)[6] == sig[6] && bytes@.take(8)[7] == sig[7]);
                }
            }
        }
        r
    } else {
        false
    }
}

/// The first chunk in `cs` that is a legal `IHDR`.
pub open spec fn spec_first_ihdr(cs: Seq<ChunkModel>) -> Option<IHDR>
    decreases cs.len(),
{
    if cs.len() == 0 {
        None
    } else if cs[0].0 == tag_ihdr() && spec_parse_ihdr(cs[0].1) is Some {
        spec_parse_ihdr(cs[0].1)
    } else {
        spec_first_ihdr(cs.drop_first())
    }
}

/// The data of the first `tRNS` chunk in `cs`.
pub open spec fn spec_first_trns(cs: Seq<ChunkModel>) -> Option<Seq<u8>>
    decreases cs.len(),
{
    if cs.len() == 0 {
        None
    } else if cs[0].0 == tag_trns() {
        Some(cs[0].1)
    } else {
        spec_first_trns(cs.drop_first())
    }
}

/// The data of the first `PLTE` chunk in `cs` that holds whole entries.
pub open spec fn spec_first_plte(cs: Seq<ChunkModel>) -> Option<Seq<u8>>
    decreases cs.len(),
{
    if cs.len() == 0 {
        None
    } else if cs[0].0 == tag_plte() && cs[0].1.len() % 3 == 0 {
        Some(cs[0].1)
    } else {
        spec_first_plte(cs.drop_first())
    }
}

/// The data of every `IDAT` chunk in `cs`, in order.
pub open spec fn spec_idats(cs: Seq<ChunkModel>) -> Seq<Seq<u8>>
    decreases cs.len(),
{
    if cs.len() == 0 {
        Seq::empty()
    } else if cs[0].0 == tag_idat() {
        seq![cs[0].1] + spec_idats(cs.drop_first())
    } else {
        spec_idats(cs.drop_first())
    }
}

/// Unfolds [spec_chunks] one step.
proof fn lemma_chunks_step(s: Seq<u8>)
    ensures
        spec_next_chunk(s).0 is None ==> spec_chunks(s) == Seq::<ChunkModel>::empty(),
        spec_next_chunk(s).0 matches Some(c) ==> spec_chunks(s) == seq![c] + spec_chunks(
            spec_next_chunk(s).1,
        ),
{
    lemma_next_chunk_progress(s);
}

/// Gets the [IHDR] out of the PNG bytes: the first legal image header chunk.
pub fn png_get_header(bytes: &[u8]) -> (r: Option<IHDR>)
    ensures
        r == spec_first_ihdr(spec_chunks(after_signature(bytes@))),
{
    let mut it = PngRawChunkIter::new(bytes);
    loop
        invariant
            spec_first_ihdr(spec_chunks(after_signature(bytes@))) == spec_first_ihdr(
                spec_chunks(it.remaining()),
            ),
        decreases it.remaining().len(),
    {
        let ghost before = it.remaining();
        proof {
            lemma_chunks_step(before);
            lemma_next_chunk_progress(before);
        }
        match it.next() {
            None => {
                return None;
            },
            Some(raw) => {
                let ghost cs = spec_chunks(before);
                assert(cs[0] == raw.view());
                assert(cs.drop_first() =~= spec_chunks(it.remaining()));
                match PngChunk::try_from_raw(raw) {
                    Ok(PngChunk::IHDR(h)) => {
                        return Some(h);
                    },
                    _ => {},
                }
            },
        }
    }
}

/// Gets the transparency chunk for the PNG bytes, if any.
pub fn png_get_transparency<'b>(bytes: &'b [u8]) -> (r: Option<tRNS<'b>>)
    ensures
        match r {
            Some(t) => spec_first_trns(spec_chunks(after_signature(bytes@))) == Some(t.view()),
            None => spec_first_trns(spec_chunks(after_signature(bytes@))) is None,
        },
{
    let mut it = PngRawChunkIter::new(bytes);
    loop
        invariant
            spec_first_trns(spec_chunks(after_signature(bytes@))) == spec_first_trns(
                spec_chunks(it.remaining()),
            ),
        decreases it.remaining().len(),
    {
        let ghost before = it.remaining();
        proof {
            lemma_chunks_step(before);
            lemma_next_chunk_progress(before);
        }
        match it.next() {
            None => {
                return None;
            },
            Some(raw) => {
                let ghost cs = spec_chunks(before);
                assert(cs[0] == raw.view());
                assert(cs.drop_first() =~= spec_chunks(it.remaining()));
                match PngChunk::try_from_raw(raw) {
                    Ok(PngChunk::tRNS(t)) => {
                        return Some(t);
                    },
                    _ => {},
                }
            },
        }
    }
}

/// Gets the palette out of the PNG bytes.
pub fn png_get_palette(bytes: &[u8]) -> (r: Option<Vec<RGB888>>)
    ensures
        match r {
            Some(v) => spec_first_plte(spec_chunks(after_signature(bytes@))) matches Some(d) && v@
                == spec_palette_entries(d),
            None => spec_first_plte(spec_chunks(after_signature(bytes@))) is None,
        },
{
    let mut it = PngRawChunkIter::new(bytes);
    loop
        invariant
            spec_first_plte(spec_chunks(after_signature(bytes@))) == spec_first_plte(
                spec_chunks(it.remaining()),
            ),
        decreases it.remaining().len(),
    {
        let ghost before = it.remaining();
        proof {
            lemma_chunks_step(before);
            lemma_next_chunk_progress(before);
        }
        match it.next() {
            None => {
                return None;
            },
            Some(raw) => {
                let ghost cs = spec_chunks(before);
                assert(cs[0] == raw.view());
                assert(cs.drop_first() =~= spec_chunks(it.remaining()));
                match PngChunk::try_from_raw(raw) {
                    Ok(PngChunk::PLTE(p)) => {
                        return Some(p.entries());
                    },
                    _ => {},
                }
            },
        }
    }
}

/// Gets all the [IDAT] slices in the PNG bytes, in order.
pub fn png_get_idat<'b>(bytes: &'b [u8]) -> (r: Vec<&'b [u8]>)
    ensures
        r@.map_values(|s: &[u8]| s@) == spec_idats(spec_chunks(after_signature(bytes@))),
{
    let mut it = PngRawChunkIter::new(bytes);
    let mut out: Vec<&'b [u8]> = Vec::new();
    let ghost mut acc: Seq<Seq<u8>> = Seq::empty();
    loop
        invariant
            spec_idats(spec_chunks(after_signature(bytes@))) == acc + spec_idats(
                spec_chunks(it.remaining()),
            ),
            out@.len() == acc.len(),
            forall|k: int| 0 <= k < acc.len() ==> #[trigger] out@[k]@ == acc[k],
        decreases it.remaining().len(),
    {
        let ghost before = it.remaining();
        proof {
            lemma_chunks_step(before);
            lemma_next_chunk_progress(before);
        }
        match it.next() {
            None => {
                assert(spec_chunks(before) =~= Seq::<ChunkModel>::empty());
                assert(acc + spec_idats(spec_chunks(before)) =~= acc);
                assert(out@.map_values(|s: &[u8]| s@) =~= acc);
                return out;
            },
            Some(raw) => {
                let ghost cs = spec_chunks(before);
                assert(cs[0] == raw.view());
                assert(cs.drop_first() =~= spec_chunks(it.remaining()));
                match PngChunk::try_from_raw(raw) {
                    Ok(PngChunk::IDAT(d)) => {
                        out.push(d.as_bytes());
                        proof {
                            assert(spec_idats(cs) == seq![raw.view().1] + spec_idats(cs.drop_first()));
                            assert(acc + spec_idats(cs) =~= acc.push(raw.view().1) + spec_idats(cs.drop_first()));
                            acc = acc.push(raw.view().1);
                        }
                    },
                    _ => {
                        assert(spec_idats(cs) == spec_idats(cs.drop_first()));
                    },
                }
            },
        }
    }
}

} // verus!
