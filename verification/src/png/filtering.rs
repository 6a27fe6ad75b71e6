//! Reconstructing (unfiltering) the scanlines of a non-interlaced image in
//! place. Filters are applied to bytes, not to pixels, regardless of the bit
//! depth or color type of the image.
use vstd::prelude::*;
use crate::png::chunks::{IHDR, spec_bits_per_pixel, spec_bytes_per_filterline};
use crate::png::png_error::{PngError, PngResult};
use crate::png::unfilter::{final_rows, spec_filter_chunk_size, filter_chunk_size, unfilter_lines_in_place};

verus! {

/// The first of `rows` lines of `bpf` bytes (filter byte first) held in
/// `buf`, from line `k` on, whose filter type is above 4; `rows` if none.
pub open spec fn first_bad_filter_line(buf: Seq<u8>, bpf: int, rows: int, k: int) -> int
    decreases rows - k,
{
    if k >= rows {
        rows
    } else if buf[k * bpf] > 4 {
        k
    } else {
        first_bad_filter_line(buf, bpf, rows, k + 1)
    }
}

proof fn lemma_bad_line_bounds(buf: Seq<u8>, bpf: int, rows: int, k: int)
    requires
        0 <= k <= rows,
    ensures
        k <= first_bad_filter_line(buf, bpf, rows, k) <= rows,
    decreases rows - k,
{
    if k < rows && buf[k * bpf] <= 4 {
        lemma_bad_line_bounds(buf, bpf, rows, k + 1);
    }
}

/// Reconstructs the scanlines of a non-interlaced image, in place.
///
/// `temp_memory` holds `height` filter lines; each filter byte is kept as it
/// is. The lines are reconstructed in order up to the first one whose filter
/// type is illegal, which gives an error.
pub fn reconstruct_in_place(temp_memory: &mut [u8], header: IHDR) -> (r: PngResult<()>)
    requires
        spec_filter_chunk_size(header) is Some,
        spec_bits_per_pixel(header) * header.width + 8 <= usize::MAX,
    ensures
        header.is_interlaced ==> r == Err::<(), PngError>(PngError::InterlaceNotSupported) && final(temp_memory)@ == old(temp_memory)@,
        !header.is_interlaced ==> ({
            let bpf = spec_bytes_per_filterline(header, header.width);
            let rows = header.height as int;
            if bpf * rows != old(temp_memory)@.len() {
                r == Err::<(), PngError>(PngError::TempMemoryWrongSizeForHeader) && final(temp_memory)@ == old(temp_memory)@
            } else {
                let k0 = first_bad_filter_line(old(temp_memory)@, bpf, rows, 0);
                let cs = spec_filter_chunk_size(header)->0;
                &&& final(temp_memory)@ == final_rows(true, old(temp_memory)@.take(k0 * bpf), bpf, cs, k0 as nat) + old(temp_memory)@.skip(k0 * bpf)
                &&& (r is Ok <==> k0 == rows)
                &&& r is Err ==> r == Err::<(), PngError>(PngError::IllegalAdaptiveFilterType)
            }
        }),
{
    if header.is_interlaced {
        return Err(PngError::InterlaceNotSupported);
    }
    let tlen = temp_memory.len();
    let bytes_per_scanline = header.bytes_per_filterline(header.width);
    let h = header.height as usize;
    let total = match bytes_per_scanline.checked_mul(h) {
        Some(t) => t,
        None => {
            return Err(PngError::TempMemoryWrongSizeForHeader);
        },
    };
    if total != temp_memory.len() {
        return Err(PngError::TempMemoryWrongSizeForHeader);
    }
    let cs = filter_chunk_size(&header);
    let ghost buf = temp_memory@;
    let mut k: usize = 0;
    while k < h
        invariant
            k <= h,
            bytes_per_scanline >= 1,
            total == bytes_per_scanline * h,
            buf.len() == total,
            temp_memory@ == buf,
            first_bad_filter_line(buf, bytes_per_scanline as int, h as int, 0)
                == first_bad_filter_line(buf, bytes_per_scanline as int, h as int, k as int),
        ensures
            k <= h,
            temp_memory@ == buf,
            first_bad_filter_line(buf, bytes_per_scanline as int, h as int, 0) == k,
        decreases h - k,
    {
        proof {
            assert(k * bytes_per_scanline < total) by (nonlinear_arith)
                requires
                    k < h,
                    total == bytes_per_scanline * h,
                    bytes_per_scanline >= 1,
            ;
        }
        if temp_memory[k * bytes_per_scanline] > 4 {
            assert(first_bad_filter_line(buf, bytes_per_scanline as int, h as int, k as int) == k);
            break;
        }
        k = k + 1;
    }
    proof {
        lemma_bad_line_bounds(buf, bytes_per_scanline as int, h as int, 0);
        assert(bytes_per_scanline * k <= total) by (nonlinear_arith)
            requires
                k <= h,
                total == bytes_per_scanline * h,
        ;
    }
    unfilter_lines_in_place(temp_memory, 0, bytes_per_scanline, k, cs, true);
    proof {
        let n = bytes_per_scanline * k;
        assert(n == k * bytes_per_scanline) by (nonlinear_arith)
            requires
                n == bytes_per_scanline * k,
        ;
        assert(buf.subrange(0, n as int) =~= buf.take(n as int));
        assert(buf.take(0) + final_rows(true, buf.take(n as int), bytes_per_scanline as int, cs as int, k as nat)
            =~= final_rows(true, buf.take(n as int), bytes_per_scanline as int, cs as int, k as nat));
    }
    if k < h {
        Err(PngError::IllegalAdaptiveFilterType)
    } else {
        Ok(())
    }
}

} // verus!
