//! Changing the bit depth of a channel value.
use vstd::prelude::*;
use vstd::arithmetic::power2::{pow2, lemma2_to64, lemma_pow2_adds, lemma_pow2_pos};
use vstd::arithmetic::div_mod::{lemma_div_is_ordered, lemma_fundamental_div_mod, lemma_fundamental_div_mod_converse};
use vstd::arithmetic::mul::lemma_mul_inequality;

verus! {

/// The first `n` bits, as a number (first bit highest), of the `b`-bit
/// pattern `v` written out over and over.
pub open spec fn repeat_pattern(v: nat, b: nat, n: nat) -> nat
    decreases n,
{
    if b == 0 {
        0
    } else if n <= b {
        v / pow2((b - n) as nat)
    } else {
        v * pow2((n - b) as nat) + repeat_pattern(v, b, (n - b) as nat)
    }
}

/// The 8-bit value of a `b`-bit channel value: the first 8 bits of its bit
/// pattern repeated. Below 8 bits the pattern fills the byte; at 8 bits the
/// value is unchanged; above 8 bits only the highest 8 bits remain.
pub open spec fn depth_8_value(b: nat, src: nat) -> nat {
    repeat_pattern(src, b, 8)
}

/// Makes the bit depth of a channel be 8, with only integer operations.
///
/// `B` is how many bits are used within the source value (other bits must
/// be 0). Depths below 8 replicate the bits downward, depths above 8 drop the
/// lowest bits, and depth 8 is unchanged.
pub fn int_make_depth_8<const B: u32>(src: u32) -> (out: u8)
    requires
        1 <= B <= 31,
        src < pow2(B as nat),
    ensures
        out == depth_8_value(B as nat, src as nat),
{
    proof {
        lemma2_to64();
        lemma_repeat_small_depths(src as nat);
    }
    if B == 1 {
        if src != 0 { 0b11111111u8 } else { 0 }
    } else if B == 2 {
        assert(src < 4 ==> ((src << 6u32) | (src << 4u32) | (src << 2u32) | src) as u8 == src * 64 + src * 16 + src * 4 + src)
            by (bit_vector);
        ((src << 6u32) | (src << 4u32) | (src << 2u32) | src) as u8
    } else if B == 3 {
        assert(src < 8 ==> ((src << 5u32) | (src << 2u32) | (src >> 1u32)) as u8 == src * 32 + src * 4 + src / 2)
            by (bit_vector);
        ((src << 5u32) | (src << 2u32) | (src >> 1u32)) as u8
    } else if B == 4 {
        assert(src < 16 ==> ((src << 4u32) | src) as u8 == src * 16 + src) by (bit_vector);
        ((src << 4u32) | src) as u8
    } else if B == 5 {
        assert(src < 32 ==> ((src << 3u32) | (src >> 2u32)) as u8 == src * 8 + src / 4) by (bit_vector);
        ((src << 3u32) | (src >> 2u32)) as u8
    } else if B == 6 {
        assert(src < 64 ==> ((src << 2u32) | (src >> 4u32)) as u8 == src * 4 + src / 16) by (bit_vector);
        ((src << 2u32) | (src >> 4u32)) as u8
    } else if B == 7 {
        assert(src < 128 ==> ((src << 1u32) | (src >> 6u32)) as u8 == src * 2 + src / 64) by (bit_vector);
        ((src << 1u32) | (src >> 6u32)) as u8
    } else {
        let shift: u32 = B - 8;
        proof {
            vstd::bits::lemma_u32_shr_is_div(src, shift);
            lemma_top_bits_fit(src as nat, B as nat, 8);
        }
        (src >> shift) as u8
    }
}

/// The repeated patterns of depths 1 to 7 written out as sums.
proof fn lemma_repeat_small_depths(v: nat)
    ensures
        repeat_pattern(v, 1, 8) == v * 255,
        repeat_pattern(v, 2, 8) == v * 64 + v * 16 + v * 4 + v,
        repeat_pattern(v, 3, 8) == v * 32 + v * 4 + v / 2,
        repeat_pattern(v, 4, 8) == v * 16 + v,
        repeat_pattern(v, 5, 8) == v * 8 + v / 4,
        repeat_pattern(v, 6, 8) == v * 4 + v / 16,
        repeat_pattern(v, 7, 8) == v * 2 + v / 64,
{
    lemma2_to64();
    assert(v / 1 == v);
    assert(repeat_pattern(v, 1, 1) == v);
    assert(repeat_pattern(v, 1, 2) == v * 2 + v);
    assert(repeat_pattern(v, 1, 3) == v * 4 + v * 2 + v);
    assert(repeat_pattern(v, 1, 4) == v * 8 + v * 4 + v * 2 + v);
    assert(repeat_pattern(v, 1, 5) == v * 31);
    assert(repeat_pattern(v, 1, 6) == v * 63);
    assert(repeat_pattern(v, 1, 7) == v * 127);
    assert(repeat_pattern(v, 1, 8) == v * 128 + v * 127);
    assert(repeat_pattern(v, 2, 2) == v);
    assert(repeat_pattern(v, 2, 4) == v * 4 + v);
    assert(repeat_pattern(v, 2, 6) == v * 16 + v * 4 + v);
    assert(repeat_pattern(v, 3, 2) == v / 2);
    assert(repeat_pattern(v, 3, 5) == v * 4 + v / 2);
    assert(repeat_pattern(v, 4, 4) == v);
    assert(repeat_pattern(v, 5, 3) == v / 4);
    assert(repeat_pattern(v, 6, 2) == v / 16);
    assert(repeat_pattern(v, 7, 1) == v / 64);
}

/// Dividing a value below `2^b` by `2^(b - n)` leaves a value below `2^n`.
proof fn lemma_top_bits_fit(v: nat, b: nat, n: nat)
    requires
        n <= b,
        v < pow2(b),
    ensures
        v / pow2((b - n) as nat) < pow2(n),
{
    let d = pow2((b - n) as nat);
    lemma_pow2_pos((b - n) as nat);
    lemma_pow2_adds((b - n) as nat, n);
    assert((b - n) as nat + n == b);
    lemma_fundamental_div_mod(v as int, d as int);
    let q = v / d;
    assert(q < pow2(n)) by (nonlinear_arith)
        requires
            d > 0,
            v == d * q + v % d,
            v % d >= 0,
            v < d * pow2(n),
    ;
}

/// For values `v1 <= v2` of `b` bits, the repeated patterns keep their order
/// and the larger one still fits in `n` bits.
proof fn lemma_repeat_ordered(v1: nat, v2: nat, b: nat, n: nat)
    requires
        b >= 1,
        v1 <= v2 < pow2(b),
    ensures
        repeat_pattern(v1, b, n) <= repeat_pattern(v2, b, n) < pow2(n),
    decreases n,
{
    if n <= b {
        let d = pow2((b - n) as nat);
        lemma_pow2_pos((b - n) as nat);
        lemma_div_is_ordered(v1 as int, v2 as int, d as int);
        lemma_top_bits_fit(v2, b, n);
    } else {
        let m = (n - b) as nat;
        let p = pow2(m);
        lemma_repeat_ordered(v1, v2, b, m);
        lemma_pow2_adds(b, m);
        assert(b + m == n);
        lemma_mul_inequality(v1 as int, v2 as int, p as int);
        let r2 = repeat_pattern(v2, b, m);
        assert(v2 * p + r2 < pow2(b) * p) by (nonlinear_arith)
            requires
                v2 < pow2(b),
                r2 < p,
        ;
    }
}

/// The all-zero pattern repeats to zero.
proof fn lemma_repeat_zero(b: nat, n: nat)
    requires
        b >= 1,
    ensures
        repeat_pattern(0, b, n) == 0,
    decreases n,
{
    if n <= b {
        lemma_pow2_pos((b - n) as nat);
    } else {
        lemma_repeat_zero(b, (n - b) as nat);
    }
}

/// The all-ones pattern repeats to all ones.
proof fn lemma_repeat_ones(b: nat, n: nat)
    requires
        b >= 1,
    ensures
        repeat_pattern((pow2(b) - 1) as nat, b, n) == pow2(n) - 1,
    decreases n,
{
    lemma_pow2_pos(b);
    lemma_pow2_pos(n);
    if n <= b {
        let d = pow2((b - n) as nat);
        lemma_pow2_pos((b - n) as nat);
        lemma_pow2_adds((b - n) as nat, n);
        assert((b - n) as nat + n == b);
        assert(pow2(b) - 1 == (pow2(n) - 1) * d + (d - 1)) by (nonlinear_arith)
            requires
                pow2(b) == d * pow2(n),
        ;
        lemma_fundamental_div_mod_converse(pow2(b) - 1, d as int, pow2(n) - 1, d - 1);
    } else {
        let m = (n - b) as nat;
        lemma_repeat_ones(b, m);
        lemma_pow2_adds(b, m);
        assert(b + m == n);
        let p = pow2(m);
        assert((pow2(b) - 1) * p + (p - 1) == pow2(b) * p - 1) by (nonlinear_arith);
    }
}

/// The first `b` bits of a repeated `b`-bit pattern are the pattern itself.
proof fn lemma_repeat_starts_with_pattern(v: nat, b: nat, n: nat)
    requires
        1 <= b <= n,
        v < pow2(b),
    ensures
        repeat_pattern(v, b, n) / pow2((n - b) as nat) == v,
{
    if n == b {
        assert(pow2(0) == 1) by {
            lemma2_to64();
        }
    } else {
        let m = (n - b) as nat;
        let p = pow2(m);
        lemma_pow2_pos(m);
        lemma_repeat_ordered(v, v, b, m);
        lemma_fundamental_div_mod_converse((v * p + repeat_pattern(v, b, m)) as int, p as int, v as int, repeat_pattern(v, b, m) as int);
    }
}

/// Zero stays zero and the largest `b`-bit value becomes 255, at any depth
/// from 1 to 31.
pub proof fn lemma_depth_8_endpoints(b: nat)
    requires
        1 <= b <= 31,
    ensures
        depth_8_value(b, 0) == 0,
        depth_8_value(b, (pow2(b) - 1) as nat) == 255,
{
    lemma_repeat_zero(b, 8);
    lemma_repeat_ones(b, 8);
    lemma2_to64();
}

/// A larger source value never gives a smaller 8-bit value, and every result
/// fits in a byte.
pub proof fn lemma_depth_8_monotonic(b: nat, s1: nat, s2: nat)
    requires
        1 <= b <= 31,
        s1 <= s2 < pow2(b),
    ensures
        depth_8_value(b, s1) <= depth_8_value(b, s2) <= 255,
{
    lemma_repeat_ordered(s1, s2, b, 8);
    lemma2_to64();
}

/// At depths up to 8 the source value is the high `b` bits of the result, so
/// no information is lost; at depth 8 the value is unchanged.
pub proof fn lemma_depth_8_keeps_source_bits(b: nat, src: nat)
    requires
        1 <= b <= 8,
        src < pow2(b),
    ensures
        depth_8_value(b, src) / pow2((8 - b) as nat) == src,
        b == 8 ==> depth_8_value(b, src) == src,
{
    lemma_repeat_starts_with_pattern(src, b, 8);
    lemma2_to64();
}

} // verus!
