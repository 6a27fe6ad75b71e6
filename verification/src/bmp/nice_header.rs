//! The decoded essentials of a BMP header: size, orientation, pixel format
//! and where the pixel data is.
use vstd::prelude::*;
use vstd::arithmetic::power2::pow2;
use crate::error::ImagineError;
use crate::bmp::raw_headers::{
    InfoHeader, spec_info_header, read_info_header, le32, read_u32_le, BI_RGB, BI_RLE8, BI_RLE4,
    BI_BITFIELDS, BI_ALPHABITFIELDS,
};
use crate::bmp::{spec_padded_bytes_per_line, padded_bytes_per_line};

verus! {

/// How the pixel data of a BMP is stored. A palette span is the range of
/// file bytes that holds the palette.
#[derive(Debug, Clone, Copy, PartialEq, Eq)]
pub enum BmpDataFormat {
    Indexed1 { palette_span: (usize, usize) },
    Indexed4 { palette_span: (usize, usize) },
    Indexed4Rle { palette_span: (usize, usize) },
    Indexed8 { palette_span: (usize, usize) },
    Indexed8Rle { palette_span: (usize, usize) },
    Bitmask16RGB { r_mask: u16, g_mask: u16, b_mask: u16 },
    Bitmask16RGBA { r_mask: u16, g_mask: u16, b_mask: u16, a_mask: u16 },
    BGR24,
    Bitmask32RGB { r_mask: u32, g_mask: u32, b_mask: u32 },
    Bitmask32RGBA { r_mask: u32, g_mask: u32, b_mask: u32, a_mask: u32 },
}

impl BmpDataFormat {
    /// If the format is a run-length encoded format.
    pub fn is_rle(self) -> (b: bool)
        ensures
            b == (self is Indexed4Rle || self is Indexed8Rle),
    {
        match self {
            BmpDataFormat::Indexed4Rle { .. } | BmpDataFormat::Indexed8Rle { .. } => true,
            _ => false,
        }
    }
}

/// This is a nice, easy to use form of BMP header: the important info,
/// without all the rest.
#[derive(Debug, Clone, Copy, PartialEq, Eq)]
pub struct BmpNiceHeader {
    pub width: u32,
    pub height: u32,
    pub origin_top_left: bool,
    pub data_format: BmpDataFormat,
    pub data_span: (usize, usize),
}

/// The magnitude of a signed value.
pub open spec fn unsigned_abs(v: i32) -> u32 {
    if v < 0 { (-(v as int)) as u32 } else { v as u32 }
}

fn unsigned_abs_exec(v: i32) -> (r: u32)
    ensures
        r == unsigned_abs(v),
{
    if v < 0 {
        (0i64 - v as i64) as u32
    } else {
        v as u32
    }
}

/// The data format for a bits-per-pixel and compression pair (with its
/// palette span and masks), `Parse` for the unsupported ones.
pub open spec fn spec_data_format(info: InfoHeader, span: (usize, usize)) -> Result<BmpDataFormat, ImagineError> {
    let bpp = info.bits_per_pixel;
    let c = info.compression;
    if bpp == 1 && c == BI_RGB {
        Ok(BmpDataFormat::Indexed1 { palette_span: span })
    } else if bpp == 4 && c == BI_RGB {
        Ok(BmpDataFormat::Indexed4 { palette_span: span })
    } else if bpp == 4 && c == BI_RLE4 {
        Ok(BmpDataFormat::Indexed4Rle { palette_span: span })
    } else if bpp == 8 && c == BI_RGB {
        Ok(BmpDataFormat::Indexed8 { palette_span: span })
    } else if bpp == 8 && c == BI_RLE8 {
        Ok(BmpDataFormat::Indexed8Rle { palette_span: span })
    } else if bpp == 16 && c == BI_RGB {
        Ok(BmpDataFormat::Bitmask16RGB { r_mask: 0x7C00, g_mask: 0x3E0, b_mask: 0x1F })
    } else if bpp == 16 && (c == BI_BITFIELDS || c == BI_ALPHABITFIELDS) {
        if info.r_mask > 0xFFFF || info.g_mask > 0xFFFF || info.b_mask > 0xFFFF || info.a_mask > 0xFFFF {
            Err(ImagineError::Parse)
        } else if info.a_mask != 0 {
            Ok(BmpDataFormat::Bitmask16RGBA {
                r_mask: info.r_mask as u16,
                g_mask: info.g_mask as u16,
                b_mask: info.b_mask as u16,
                a_mask: info.a_mask as u16,
            })
        } else {
            Ok(BmpDataFormat::Bitmask16RGB { r_mask: info.r_mask as u16, g_mask: info.g_mask as u16, b_mask: info.b_mask as u16 })
        }
    } else if bpp == 24 && c == BI_RGB {
        Ok(BmpDataFormat::BGR24)
    } else if bpp == 32 && (c == BI_BITFIELDS || c == BI_ALPHABITFIELDS) {
        if info.a_mask != 0 {
            Ok(BmpDataFormat::Bitmask32RGBA { r_mask: info.r_mask, g_mask: info.g_mask, b_mask: info.b_mask, a_mask: info.a_mask })
        } else {
            Ok(BmpDataFormat::Bitmask32RGB { r_mask: info.r_mask, g_mask: info.g_mask, b_mask: info.b_mask })
        }
    } else {
        Err(ImagineError::Parse)
    }
}

/// The number of palette entries: `colors_used`, or when that is 0,
/// `2^bits_per_pixel` (the shift taken modulo the bits of a `usize`).
pub open spec fn spec_palette_entries(info: InfoHeader) -> int {
    if info.colors_used == 0 {
        pow2((info.bits_per_pixel as nat % usize::BITS as nat) as nat) as int
    } else {
        info.colors_used as int
    }
}

/// The nice header of a BMP file.
pub open spec fn spec_nice_header(b: Seq<u8>) -> Result<BmpNiceHeader, ImagineError> {
    match spec_info_header(b) {
        Err(e) => Err(e),
        Ok((info, size)) => {
            let width = unsigned_abs(info.width);
            let height = unsigned_abs(info.height);
            if width == 0 || height == 0 {
                Err(ImagineError::WidthOrHeightZero)
            } else {
                let pal_start = 14 + size as int;
                let pal_end = pal_start + spec_palette_entries(info) * 4;
                if pal_start > usize::MAX || spec_palette_entries(info) * 4 > usize::MAX || pal_end > usize::MAX {
                    Err(ImagineError::CheckedMath)
                } else {
                    match spec_data_format(info, (pal_start as usize, pal_end as usize)) {
                        Err(e) => Err(e),
                        Ok(format) => {
                            let data_start = le32(b, 10) as int;
                            let rle = format is Indexed4Rle || format is Indexed8Rle;
                            if rle {
                                Ok(BmpNiceHeader {
                                    width,
                                    height,
                                    origin_top_left: info.height < 0,
                                    data_format: format,
                                    data_span: (data_start as usize, ((b.len() / 2) * 2) as usize),
                                })
                            } else {
                                match spec_padded_bytes_per_line(width, info.bits_per_pixel) {
                                    Err(e) => Err(e),
                                    Ok(line) => {
                                        let end = data_start + line as int * height as int;
                                        if line as int * height as int > usize::MAX || end > usize::MAX {
                                            Err(ImagineError::CheckedMath)
                                        } else {
                                            Ok(BmpNiceHeader {
                                                width,
                                                height,
                                                origin_top_left: info.height < 0,
                                                data_format: format,
                                                data_span: (data_start as usize, end as usize),
                                            })
                                        }
                                    },
                                }
                            }
                        },
                    }
                }
            }
        },
    }
}

fn data_format(info: InfoHeader, span: (usize, usize)) -> (r: Result<BmpDataFormat, ImagineError>)
    ensures
        r == spec_data_format(info, span),
{
    let bpp = info.bits_per_pixel;
    let c = info.compression;
    if bpp == 1 && c == BI_RGB {
        Ok(BmpDataFormat::Indexed1 { palette_span: span })
    } else if bpp == 4 && c == BI_RGB {
        Ok(BmpDataFormat::Indexed4 { palette_span: span })
    } else if bpp == 4 && c == BI_RLE4 {
        Ok(BmpDataFormat::Indexed4Rle { palette_span: span })
    } else if bpp == 8 && c == BI_RGB {
        Ok(BmpDataFormat::Indexed8 { palette_span: span })
    } else if bpp == 8 && c == BI_RLE8 {
        Ok(BmpDataFormat::Indexed8Rle { palette_span: span })
    } else if bpp == 16 && c == BI_RGB {
        Ok(BmpDataFormat::Bitmask16RGB { r_mask: 0x7C00, g_mask: 0x3E0, b_mask: 0x1F })
    } else if bpp == 16 && (c == BI_BITFIELDS || c == BI_ALPHABITFIELDS) {
        if info.r_mask > 0xFFFF || info.g_mask > 0xFFFF || info.b_mask > 0xFFFF || info.a_mask > 0xFFFF {
            Err(ImagineError::Parse)
        } else if info.a_mask != 0 {
            Ok(BmpDataFormat::Bitmask16RGBA {
                r_mask: info.r_mask as u16,
                g_mask: info.g_mask as u16,
                b_mask: info.b_mask as u16,
                a_mask: info.a_mask as u16,
            })
        } else {
            Ok(BmpDataFormat::Bitmask16RGB { r_mask: info.r_mask as u16, g_mask: info.g_mask as u16, b_mask: info.b_mask as u16 })
        }
    } else if bpp == 24 && c == BI_RGB {
        Ok(BmpDataFormat::BGR24)
    } else if bpp == 32 && (c == BI_BITFIELDS || c == BI_ALPHABITFIELDS) {
        if info.a_mask != 0 {
            Ok(BmpDataFormat::Bitmask32RGBA { r_mask: info.r_mask, g_mask: info.g_mask, b_mask: info.b_mask, a_mask: info.a_mask })
        } else {
            Ok(BmpDataFormat::Bitmask32RGB { r_mask: info.r_mask, g_mask: info.g_mask, b_mask: info.b_mask })
        }
    } else {
        Err(ImagineError::Parse)
    }
}

fn palette_entries(info: InfoHeader) -> (n: usize)
    ensures
        n == spec_palette_entries(info),
{
    if info.colors_used == 0 {
        let sh: u32 = (info.bits_per_pixel as u32) % usize::BITS;
        proof {
            vstd::bits::lemma_usize_pow2_no_overflow(sh as nat);
            vstd::bits::lemma_usize_shl_is_mul(1usize, sh as usize);
        }
        1usize << (sh as usize)
    } else {
        info.colors_used as usize
    }
}

/// Reads the header of a BMP file into the nice form.
///
/// Fails with `Parse` for a short or unknown header and for unsupported
/// formats, `WidthOrHeightZero` for an empty image, and `CheckedMath` when a
/// size or offset doesn't fit a `usize`.
pub fn bmp_get_nice_header(bytes: &[u8]) -> (r: Result<BmpNiceHeader, ImagineError>)
    ensures
        r == spec_nice_header(bytes@),
{
    let (info, size) = match read_info_header(bytes) {
        Ok(p) => p,
        Err(e) => {
            return Err(e);
        },
    };
    let width = unsigned_abs_exec(info.width);
    if width == 0 {
        return Err(ImagineError::WidthOrHeightZero);
    }
    let height = unsigned_abs_exec(info.height);
    if height == 0 {
        return Err(ImagineError::WidthOrHeightZero);
    }
    let origin_top_left = info.height < 0;
    let pal_start = match 14usize.checked_add(size as usize) {
        Some(p) => p,
        None => {
            return Err(ImagineError::CheckedMath);
        },
    };
    let pal_entry_count = palette_entries(info);
    let pal_bytes = match pal_entry_count.checked_mul(4) {
        Some(p) => p,
        None => {
            return Err(ImagineError::CheckedMath);
        },
    };
    let pal_end = match pal_start.checked_add(pal_bytes) {
        Some(p) => p,
        None => {
            return Err(ImagineError::CheckedMath);
        },
    };
    let format = match data_format(info, (pal_start, pal_end)) {
        Ok(f) => f,
        Err(e) => {
            return Err(e);
        },
    };
    let data_start = read_u32_le(bytes, 10) as usize;
    let data_end = if format.is_rle() {
        (bytes.len() / 2) * 2
    } else {
        let line = match padded_bytes_per_line(width, info.bits_per_pixel) {
            Ok(l) => l,
            Err(e) => {
                return Err(e);
            },
        };
        let count = match line.checked_mul(height as usize) {
            Some(c) => c,
            None => {
                return Err(ImagineError::CheckedMath);
            },
        };
        match data_start.checked_add(count) {
            Some(e) => e,
            None => {
                return Err(ImagineError::CheckedMath);
            },
        }
    };
    Ok(BmpNiceHeader { width, height, origin_top_left, data_format: format, data_span: (data_start, data_end) })
}

} // verus!
