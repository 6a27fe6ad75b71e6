//! The Adam7 interlacing scheme: reduced image sizes and positions.
use vstd::prelude::*;
use super::chunks::{IHDR, PngColorType, spec_channel_count};

verus! {

/// The column offset of each pass (pass 0 is the full image).
pub open spec fn pass_x_off(level: int) -> int {
    if level == 2 { 4 } else if level == 4 { 2 } else if level == 6 { 1 } else { 0 }
}

/// The column step of each pass.
pub open spec fn pass_x_step(level: int) -> int {
    if level == 1 || level == 2 { 8 } else if level == 3 || level == 4 { 4 } else if level == 5 || level
        == 6 { 2 } else { 1 }
}

/// The row offset of each pass.
pub open spec fn pass_y_off(level: int) -> int {
    if level == 3 { 4 } else if level == 5 { 2 } else if level == 7 { 1 } else { 0 }
}

/// The row step of each pass.
pub open spec fn pass_y_step(level: int) -> int {
    if level == 1 || level == 2 || level == 3 { 8 } else if level == 4 || level == 5 { 4 } else if level
        == 6 || level == 7 { 2 } else { 1 }
}

/// How many of the values `0..n` are `off` more than a multiple of `step`.
pub open spec fn count_congruent(n: int, off: int, step: int) -> int {
    (n + step - 1 - off) / step
}

/// The dimensions of a pass: how many columns and rows of the full image it
/// holds.
pub open spec fn spec_reduced_dims(level: int, w: u32, h: u32) -> (u32, u32) {
    (
        count_congruent(w as int, pass_x_off(level), pass_x_step(level)) as u32,
        count_congruent(h as int, pass_y_off(level), pass_y_step(level)) as u32,
    )
}

/// `u32` wrapping of an integer.
pub open spec fn wrap32(i: int) -> u32 {
    (i % 0x1_0000_0000) as u32
}

/// The full-image position of a position within a pass (wrapping `u32`
/// arithmetic).
pub open spec fn spec_full_pos(level: int, rx: u32, ry: u32) -> (u32, u32) {
    (
        wrap32(rx as int * pass_x_step(level) + pass_x_off(level)),
        wrap32(ry as int * pass_y_step(level) + pass_y_off(level)),
    )
}

/// Given the dimensions of the full PNG image, computes the size of each
/// reduced image: index 0 is the full image, indexes 1 through 7 the passes.
pub fn reduced_image_dimensions(full_width: u32, full_height: u32) -> (d: [(u32, u32); 8])
    ensures
        forall|level: int| 0 <= level < 8 ==> #[trigger] d@[level] == spec_reduced_dims(level, full_width, full_height),
{
    let w = full_width;
    let h = full_height;
    let fpw = w / 8;
    let fph = h / 8;
    let pw = w % 8;
    let ph = h % 8;
    let zero = (w, h);
    let first = (fpw + (pw + 7) / 8, fph + (ph + 7) / 8);
    let second = (fpw + (pw + 3) / 8, fph + (ph + 7) / 8);
    let third = (fpw * 2 + ((pw + 3) / 4), fph + ((ph + 3) / 8));
    let fourth = (fpw * 2 + (pw + 1) / 4, fph * 2 + (ph + 3) / 4);
    let fifth = (fpw * 4 + ((pw + 1) / 2), fph * 2 + (ph + 1) / 4);
    let sixth = (fpw * 4 + pw / 2, fph * 4 + ((ph + 1) / 2));
    let seventh = (fpw * 8 + pw, fph * 4 + (ph / 2));
    proof {
        assert(w / 8 + (w % 8 + 7) / 8 == (w as int + 7) / 8) by (bit_vector);
        assert(w / 8 + (w % 8 + 3) / 8 == (w as int + 3) / 8) by (bit_vector);
        assert((w / 8) * 2 + (w % 8 + 3) / 4 == (w as int + 3) / 4) by (bit_vector);
        assert((w / 8) * 2 + (w % 8 + 1) / 4 == (w as int + 1) / 4) by (bit_vector);
        assert((w / 8) * 4 + (w % 8 + 1) / 2 == (w as int + 1) / 2) by (bit_vector);
        assert((w / 8) * 4 + (w % 8) / 2 == (w as int) / 2) by (bit_vector);
        assert((w / 8) * 8 + (w % 8) == w) by (bit_vector);
        assert(h / 8 + (h % 8 + 7) / 8 == (h as int + 7) / 8) by (bit_vector);
        assert(h / 8 + (h % 8 + 3) / 8 == (h as int + 3) / 8) by (bit_vector);
        assert((h / 8) * 2 + (h % 8 + 3) / 4 == (h as int + 3) / 4) by (bit_vector);
        assert((h / 8) * 2 + (h % 8 + 1) / 4 == (h as int + 1) / 4) by (bit_vector);
        assert((h / 8) * 4 + (h % 8 + 1) / 2 == (h as int + 1) / 2) by (bit_vector);
        assert((h / 8) * 4 + (h % 8) / 2 == (h as int) / 2) by (bit_vector);
    }
    let d = [zero, first, second, third, fourth, fifth, sixth, seventh];
    assert forall|level: int| 0 <= level < 8 implies #[trigger] d@[level] == spec_reduced_dims(level, full_width, full_height) by {
        if level == 0 {
            assert((w as int + 1 - 1 - 0) / 1 == w);
            assert((h as int + 1 - 1 - 0) / 1 == h);
        }
    }
    d
}

/// Converts a position within reduced image `image_level` into the position
/// within the full image; level 0 is the full image itself.
pub fn interlaced_pos_to_full_pos(image_level: usize, reduced_x: u32, reduced_y: u32) -> (p: (u32, u32))
    requires
        image_level <= 7,
    ensures
        p == spec_full_pos(image_level as int, reduced_x, reduced_y),
        image_level == 0 ==> p == (reduced_x, reduced_y),
{
    let rx = reduced_x;
    let ry = reduced_y;
    let r = match image_level {
        0 => (rx, ry),
        1 => (rx.wrapping_mul(8), ry.wrapping_mul(8)),
        2 => (rx.wrapping_mul(8).wrapping_add(4), ry.wrapping_mul(8)),
        3 => (rx.wrapping_mul(4), ry.wrapping_mul(8).wrapping_add(4)),
        4 => (rx.wrapping_mul(4).wrapping_add(2), ry.wrapping_mul(4)),
        5 => (rx.wrapping_mul(2), ry.wrapping_mul(4).wrapping_add(2)),
        6 => (rx.wrapping_mul(2).wrapping_add(1), ry.wrapping_mul(2)),
        _ => (rx, ry.wrapping_mul(2).wrapping_add(1)),
    };
    proof {
        let m = 0x1_0000_0000int;
        assert forall|a: int, b: int| 0 <= a && 0 <= b implies #[trigger] ((a % m + b) % m) == (a + b) % m by {
            vstd::arithmetic::div_mod::lemma_add_mod_noop(a, b, m);
            vstd::arithmetic::div_mod::lemma_mod_twice(b, m);
            assert(b % m < m);
            vstd::arithmetic::div_mod::lemma_small_mod((b % m) as nat, m as nat);
        }
    }
    r
}

/// Saturating addition and multiplication on `usize`, as the spec sees them.
pub open spec fn sat(i: int) -> int {
    if i > usize::MAX { usize::MAX as int } else { i }
}

/// The temporary bytes the filtered data of one (reduced) image takes.
pub open spec fn spec_temp_bytes(width: u32, height: u32, color_type: PngColorType, bit_depth: u8) -> int {
    if width == 0 {
        0
    } else {
        let bits_per_line = sat(spec_channel_count(color_type) * bit_depth * width);
        let bytes_per_scanline = bits_per_line / 8 + if bits_per_line % 8 != 0 { 1int } else { 0 };
        sat(sat(bytes_per_scanline + 1) * height)
    }
}

/// The sum, saturating at `usize::MAX`, of the temporary bytes of the images
/// `level..8`.
pub open spec fn spec_temp_sum(h: IHDR, level: int, acc: int) -> int
    decreases 8 - level,
{
    if level >= 8 {
        acc
    } else {
        let d = spec_reduced_dims(level, h.width, h.height);
        spec_temp_sum(h, level + 1, sat(acc + spec_temp_bytes(d.0, d.1, h.color_type, h.bit_depth)))
    }
}

/// The buffer size the Zlib decompression needs: for an interlaced image the
/// saturating sum over the seven reduced images (entries 1 to 7 of
/// [reduced_image_dimensions]), otherwise the full image alone.
pub open spec fn spec_zlib_requirement(h: IHDR) -> int {
    if h.is_interlaced {
        spec_temp_sum(h, 1, 0)
    } else {
        spec_temp_bytes(h.width, h.height, h.color_type, h.bit_depth)
    }
}

/// Multiplication that saturates at `usize::MAX`.
pub fn saturating_mul_usize(a: usize, b: usize) -> (r: usize)
    ensures
        r == sat(a * b),
{
    match a.checked_mul(b) {
        Some(v) => v,
        None => usize::MAX,
    }
}

fn temp_bytes_for_image(width: u32, height: u32, color_type: PngColorType, bit_depth: u8) -> (n: usize)
    ensures
        n == spec_temp_bytes(width, height, color_type, bit_depth),
{
    if width == 0 {
        return 0;
    }
    let bits_per_pixel: usize = saturating_mul_usize(color_type.channel_count(), bit_depth as usize);
    assert(bits_per_pixel == spec_channel_count(color_type) * bit_depth);
    let bits_per_line: usize = saturating_mul_usize(bits_per_pixel, width as usize);
    let bytes_per_scanline: usize = (bits_per_line / 8) + if bits_per_line % 8 != 0 { 1 } else { 0 };
    let bytes_per_filterline: usize = bytes_per_scanline.saturating_add(1);
    saturating_mul_usize(bytes_per_filterline, height as usize)
}

impl IHDR {
    /// Gets the buffer size required to perform Zlib decompression.
    pub fn get_zlib_decompression_requirement(&self) -> (n: usize)
        ensures
            n == spec_zlib_requirement(*self),
    {
        if self.is_interlaced {
            let dims = reduced_image_dimensions(self.width, self.height);
            let mut total: usize = 0;
            let mut i: usize = 1;
            while i < 8
                invariant
                    1 <= i <= 8,
                    forall|level: int| 0 <= level < 8 ==> #[trigger] dims@[level] == spec_reduced_dims(level, self.width, self.height),
                    spec_temp_sum(*self, i as int, total as int) == spec_temp_sum(*self, 1, 0),
                decreases 8 - i,
            {
                let (w, h) = dims[i];
                total = total.saturating_add(temp_bytes_for_image(w, h, self.color_type, self.bit_depth));
                i = i + 1;
            }
            total
        } else {
            temp_bytes_for_image(self.width, self.height, self.color_type, self.bit_depth)
        }
    }
}

/// The pass that a full-image position belongs to, by its position within
/// the repeating 8x8 pattern.
pub open spec fn pass_of(x: int, y: int) -> int {
    let xm = x % 8;
    let ym = y % 8;
    if ym == 0 && xm == 0 {
        1
    } else if ym == 0 && xm == 4 {
        2
    } else if ym == 4 && xm % 4 == 0 {
        3
    } else if ym % 4 == 0 && xm % 4 == 2 {
        4
    } else if ym % 4 == 2 && xm % 2 == 0 {
        5
    } else if ym % 2 == 0 && xm % 2 == 1 {
        6
    } else {
        7
    }
}

/// Whether a position lies on the grid of a pass.
pub open spec fn on_pass_grid(level: int, x: int, y: int) -> bool {
    x % pass_x_step(level) == pass_x_off(level) && y % pass_y_step(level) == pass_y_off(level)
}

proof fn lemma_mods_of_eight(x: int)
    requires
        x >= 0,
    ensures
        x % 2 == (x % 8) % 2,
        x % 4 == (x % 8) % 4,
        x % 1 == 0,
        0 <= x % 8 < 8,
{
    vstd::arithmetic::div_mod::lemma_mod_mod(x, 2, 4);
    vstd::arithmetic::div_mod::lemma_mod_mod(x, 4, 2);
    vstd::arithmetic::div_mod::lemma_mod_pos_bound(x, 8);
    assert(x % 1 == 0);
}

/// A position lies on the grid of exactly one pass, the one [pass_of] names.
proof fn lemma_pass_grid_unique(x: int, y: int, level: int)
    requires
        x >= 0,
        y >= 0,
        1 <= level <= 7,
    ensures
        1 <= pass_of(x, y) <= 7,
        on_pass_grid(pass_of(x, y), x, y),
        on_pass_grid(level, x, y) ==> level == pass_of(x, y),
{
    lemma_mods_of_eight(x);
    lemma_mods_of_eight(y);
}

/// The grid coordinate and the position it stands for.
proof fn lemma_grid_coordinate(v: int, off: int, step: int, n: int)
    requires
        0 <= off < step,
        0 <= v < n,
        v % step == off,
    ensures
        ({
            let r = v / step;
            &&& 0 <= r < count_congruent(n, off, step)
            &&& r * step + off == v
        }),
{
    vstd::arithmetic::div_mod::lemma_fundamental_div_mod(v, step);
    let r = v / step;
    assert(r * step + off == v) by (nonlinear_arith)
        requires
            v == step * r + off,
    ;
    assert(r >= 0) by {
        vstd::arithmetic::div_mod::lemma_div_pos_is_pos(v, step);
    }
    let t = n + step - 1 - off;
    vstd::arithmetic::div_mod::lemma_fundamental_div_mod(t, step);
    let c = t / step;
    let m = t % step;
    assert(0 <= m < step) by {
        vstd::arithmetic::div_mod::lemma_mod_pos_bound(t, step);
    }
    if c <= r {
        assert(step * c <= step * r) by (nonlinear_arith)
            requires
                c <= r,
                step > 0,
        ;
        assert(false);
    }
}

/// A pass coordinate inside the pass's dimensions stands for a position inside
/// the full image, without wrapping.
proof fn lemma_grid_position_in_bounds(r: int, off: int, step: int, n: int)
    requires
        0 <= off < step,
        0 <= r < count_congruent(n, off, step),
        0 <= n,
    ensures
        0 <= r * step + off < n,
{
    let t = n + step - 1 - off;
    vstd::arithmetic::div_mod::lemma_fundamental_div_mod(t, step);
    let c = t / step;
    let m = t % step;
    assert(0 <= m < step) by {
        vstd::arithmetic::div_mod::lemma_mod_pos_bound(t, step);
    }
    assert(step * (r + 1) <= step * c) by (nonlinear_arith)
        requires
            r + 1 <= c,
            step > 0,
    ;
    assert(0 <= r * step) by (nonlinear_arith)
        requires
            r >= 0,
            step > 0,
    ;
    assert(r * step + step == step * (r + 1)) by (nonlinear_arith);
}

/// Every position of the full image belongs to exactly one pass: its pass
/// holds it at a position inside that pass's reduced dimensions, and no
/// other pass position maps onto it.
pub proof fn lemma_passes_partition_image(x: u32, y: u32, w: u32, h: u32)
    requires
        x < w,
        y < h,
    ensures
        ({
            let level = pass_of(x as int, y as int);
            let rx = (x - pass_x_off(level)) / pass_x_step(level);
            let ry = (y - pass_y_off(level)) / pass_y_step(level);
            &&& 1 <= level <= 7
            &&& 0 <= rx < spec_reduced_dims(level, w, h).0
            &&& 0 <= ry < spec_reduced_dims(level, w, h).1
            &&& spec_full_pos(level, rx as u32, ry as u32) == (x, y)
        }),
        forall|level: int, rx: u32, ry: u32|
            1 <= level <= 7 && rx < spec_reduced_dims(level, w, h).0 && ry < spec_reduced_dims(level, w, h).1
                && #[trigger] spec_full_pos(level, rx, ry) == (x, y) ==> level == pass_of(x as int, y as int),
{
    let level = pass_of(x as int, y as int);
    lemma_pass_grid_unique(x as int, y as int, 1);
    let xo = pass_x_off(level);
    let xs = pass_x_step(level);
    let yo = pass_y_off(level);
    let ys = pass_y_step(level);
    lemma_grid_coordinate(x as int, xo, xs, w as int);
    lemma_grid_coordinate(y as int, yo, ys, h as int);
    let rx = x as int / xs;
    let ry = y as int / ys;
    assert((x - xo) / xs == rx) by {
        vstd::arithmetic::div_mod::lemma_fundamental_div_mod_converse(x - xo, xs, rx, 0);
    }
    assert((y - yo) / ys == ry) by {
        vstd::arithmetic::div_mod::lemma_fundamental_div_mod_converse(y - yo, ys, ry, 0);
    }
    vstd::arithmetic::div_mod::lemma_small_mod(x as nat, 0x1_0000_0000nat);
    vstd::arithmetic::div_mod::lemma_small_mod(y as nat, 0x1_0000_0000nat);
    assert forall|l2: int, rx2: u32, ry2: u32|
        1 <= l2 <= 7 && rx2 < spec_reduced_dims(l2, w, h).0 && ry2 < spec_reduced_dims(l2, w, h).1
            && #[trigger] spec_full_pos(l2, rx2, ry2) == (x, y) implies l2 == pass_of(x as int, y as int) by {
        let xs2 = pass_x_step(l2);
        let ys2 = pass_y_step(l2);
        let xo2 = pass_x_off(l2);
        let yo2 = pass_y_off(l2);
        lemma_grid_position_in_bounds(rx2 as int, xo2, xs2, w as int);
        lemma_grid_position_in_bounds(ry2 as int, yo2, ys2, h as int);
        let fx = rx2 as int * xs2 + xo2;
        let fy = ry2 as int * ys2 + yo2;
        vstd::arithmetic::div_mod::lemma_small_mod(fx as nat, 0x1_0000_0000nat);
        vstd::arithmetic::div_mod::lemma_small_mod(fy as nat, 0x1_0000_0000nat);
        assert(fx == x && fy == y);
        vstd::arithmetic::div_mod::lemma_fundamental_div_mod_converse(fx, xs2, rx2 as int, xo2);
        vstd::arithmetic::div_mod::lemma_fundamental_div_mod_converse(fy, ys2, ry2 as int, yo2);
        lemma_pass_grid_unique(x as int, y as int, l2);
    }
}

} // verus!
