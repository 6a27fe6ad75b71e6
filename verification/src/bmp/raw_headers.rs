//! Little-endian fields of the BMP file header and the many versions of the
//! info header, normalized to the fields the decoders use.
use vstd::prelude::*;
use crate::error::ImagineError;

verus! {

/// No compression.
pub const BI_RGB: u32 = 0;
/// 8 bits per pixel run-length encoding.
pub const BI_RLE8: u32 = 1;
/// 4 bits per pixel run-length encoding.
pub const BI_RLE4: u32 = 2;
/// Channel bit masks follow the info header.
pub const BI_BITFIELDS: u32 = 3;
/// Channel bit masks, alpha included, follow the info header.
pub const BI_ALPHABITFIELDS: u32 = 6;

/// The little-endian `u16` at `i`.
pub open spec fn le16(s: Seq<u8>, i: int) -> u16 {
    (s[i] as int + 256 * s[i + 1] as int) as u16
}

/// The little-endian `u32` at `i`.
pub open spec fn le32(s: Seq<u8>, i: int) -> u32 {
    (s[i] as int + 256 * s[i + 1] as int + 0x1_0000 * s[i + 2] as int + 0x100_0000 * s[i + 3] as int) as u32
}

/// Reads the little-endian `u16` at `i`.
pub fn read_u16_le(b: &[u8], i: usize) -> (v: u16)
    requires
        i + 2 <= b@.len(),
    ensures
        v == le16(b@, i as int),
{
    (b[i] as u16) + 256 * (b[i + 1] as u16)
}

/// Reads the little-endian `u32` at `i`.
pub fn read_u32_le(b: &[u8], i: usize) -> (v: u32)
    requires
        i + 4 <= b@.len(),
    ensures
        v == le32(b@, i as int),
{
    (b[i] as u32) + 256 * (b[i + 1] as u32) + 0x1_0000 * (b[i + 2] as u32) + 0x100_0000 * (b[i + 3] as u32)
}

/// The info header fields the decoders use, whatever version of the header
/// the file holds (fields an older version lacks are 0, and its compression
/// is `BI_RGB`).
#[derive(Debug, Clone, Copy, PartialEq, Eq, Structural)]
pub struct InfoHeader {
    /// Width in pixels (negative widths are accepted).
    pub width: i32,
    /// Height in pixels; a negative height means the origin is the top left.
    pub height: i32,
    /// Bits per pixel.
    pub bits_per_pixel: u16,
    /// The compression code.
    pub compression: u32,
    /// The number of palette entries used, 0 for all of them.
    pub colors_used: u32,
    /// Red channel mask.
    pub r_mask: u32,
    /// Green channel mask.
    pub g_mask: u32,
    /// Blue channel mask.
    pub b_mask: u32,
    /// Alpha channel mask.
    pub a_mask: u32,
}

/// The info header of a file (whose 14-byte file header comes first), and
/// the size its first field declares. Fails with `Parse` when the bytes are
/// too short or the size is not one of the known versions (12, 40, 52, 56,
/// 108, 124 bytes).
pub open spec fn spec_info_header(b: Seq<u8>) -> Result<(InfoHeader, u32), ImagineError> {
    if b.len() < 18 {
        Err(ImagineError::Parse)
    } else {
        let size = le32(b, 14);
        let avail = b.len() - 14;
        if size == 12 {
            if avail < 12 {
                Err(ImagineError::Parse)
            } else {
                Ok((InfoHeader {
                    width: le16(b, 18) as i32,
                    height: le16(b, 20) as i32,
                    bits_per_pixel: le16(b, 24),
                    compression: BI_RGB,
                    colors_used: 0,
                    r_mask: 0,
                    g_mask: 0,
                    b_mask: 0,
                    a_mask: 0,
                }, size))
            }
        } else if size == 40 || size == 52 || size == 56 || size == 108 || size == 124 {
            if avail < size {
                Err(ImagineError::Parse)
            } else {
                let base = InfoHeader {
                    width: le32(b, 18) as i32,
                    height: le32(b, 22) as i32,
                    bits_per_pixel: le16(b, 28),
                    compression: le32(b, 30),
                    colors_used: le32(b, 46),
                    r_mask: 0,
                    g_mask: 0,
                    b_mask: 0,
                    a_mask: 0,
                };
                if size == 40 {
                    if base.compression == BI_BITFIELDS {
                        if avail < 52 {
                            Err(ImagineError::Parse)
                        } else {
                            Ok((InfoHeader { r_mask: le32(b, 54), g_mask: le32(b, 58), b_mask: le32(b, 62), ..base }, size))
                        }
                    } else if base.compression == BI_ALPHABITFIELDS {
                        if avail < 56 {
                            Err(ImagineError::Parse)
                        } else {
                            Ok((InfoHeader { r_mask: le32(b, 54), g_mask: le32(b, 58), b_mask: le32(b, 62), a_mask: le32(b, 66), ..base }, size))
                        }
                    } else {
                        Ok((base, size))
                    }
                } else if size == 52 {
                    Ok((InfoHeader { r_mask: le32(b, 54), g_mask: le32(b, 58), b_mask: le32(b, 62), ..base }, size))
                } else {
                    Ok((InfoHeader { r_mask: le32(b, 54), g_mask: le32(b, 58), b_mask: le32(b, 62), a_mask: le32(b, 66), ..base }, size))
                }
            }
        } else {
            Err(ImagineError::Parse)
        }
    }
}

/// Reads the info header of a file (see `spec_info_header`).
pub fn read_info_header(b: &[u8]) -> (r: Result<(InfoHeader, u32), ImagineError>)
    ensures
        r == spec_info_header(b@),
{
    if b.len() < 18 {
        return Err(ImagineError::Parse);
    }
    let size = read_u32_le(b, 14);
    let avail = b.len() - 14;
    if size == 12 {
        if avail < 12 {
            return Err(ImagineError::Parse);
        }
        return Ok((InfoHeader {
            width: read_u16_le(b, 18) as i32,
            height: read_u16_le(b, 20) as i32,
            bits_per_pixel: read_u16_le(b, 24),
            compression: BI_RGB,
            colors_used: 0,
            r_mask: 0,
            g_mask: 0,
            b_mask: 0,
            a_mask: 0,
        }, size));
    }
    if !(size == 40 || size == 52 || size == 56 || size == 108 || size == 124) {
        return Err(ImagineError::Parse);
    }
    if avail < size as usize {
        return Err(ImagineError::Parse);
    }
    let base = InfoHeader {
        width: read_u32_le(b, 18) as i32,
        height: read_u32_le(b, 22) as i32,
        bits_per_pixel: read_u16_le(b, 28),
        compression: read_u32_le(b, 30),
        colors_used: read_u32_le(b, 46),
        r_mask: 0,
        g_mask: 0,
        b_mask: 0,
        a_mask: 0,
    };
    if size == 40 {
        if base.compression == BI_BITFIELDS {
            if avail < 52 {
                return Err(ImagineError::Parse);
            }
            Ok((InfoHeader { r_mask: read_u32_le(b, 54), g_mask: read_u32_le(b, 58), b_mask: read_u32_le(b, 62), ..base }, size))
        } else if base.compression == BI_ALPHABITFIELDS {
            if avail < 56 {
                return Err(ImagineError::Parse);
            }
            Ok((InfoHeader {
                r_mask: read_u32_le(b, 54),
                g_mask: read_u32_le(b, 58),
                b_mask: read_u32_le(b, 62),
                a_mask: read_u32_le(b, 66),
                ..base
            }, size))
        } else {
            Ok((base, size))
        }
    } else if size == 52 {
        Ok((InfoHeader { r_mask: read_u32_le(b, 54), g_mask: read_u32_le(b, 58), b_mask: read_u32_le(b, 62), ..base }, size))
    } else {
        Ok((InfoHeader {
            r_mask: read_u32_le(b, 54),
            g_mask: read_u32_le(b, 58),
            b_mask: read_u32_le(b, 62),
            a_mask: read_u32_le(b, 66),
            ..base
        }, size))
    }
}

} // verus!
