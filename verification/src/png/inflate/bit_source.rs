//! A source of bits (least significant bit of each byte first) drawn from a
//! sequence of byte slices, as deflate streams are split over IDAT chunks.
use vstd::prelude::*;
use vstd::arithmetic::power2::{pow2, lemma_pow2_pos, lemma_pow2_adds, lemma2_to64, lemma_pow2_strictly_increases};
use vstd::arithmetic::div_mod::{lemma_div_multiples_vanish_fancy, lemma_fundamental_div_mod, lemma_div_denominator};
use vstd::bits::{lemma_u32_shl_is_mul, lemma_u32_shr_is_div, lemma_u32_low_bits_mask_is_mod, low_bits_mask};
use crate::png::png_error::{PngError, PngResult};

verus! {

/// The value of a byte sequence read as a little-endian number.
pub open spec fn le_value(s: Seq<u8>) -> nat
    decreases s.len(),
{
    if s.len() == 0 {
        0
    } else {
        s[0] as nat + 256 * le_value(s.skip(1))
    }
}

/// The bytes of a sequence of slices, one after the other.
pub open spec fn concat_slices(ss: Seq<&[u8]>) -> Seq<u8>
    decreases ss.len(),
{
    if ss.len() == 0 {
        Seq::empty()
    } else {
        ss[0]@ + concat_slices(ss.skip(1))
    }
}

/// No slice of `ss` is empty.
pub open spec fn slices_nonempty(ss: Seq<&[u8]>) -> bool {
    forall|k: int| 0 <= k < ss.len() ==> (#[trigger] ss[k])@.len() > 0
}

/// The number formed by the first `n` bits of `v` (lowest bit first), the
/// first bit read becoming the most significant one.
pub open spec fn msb_value(v: nat, n: nat) -> nat
    decreases n,
{
    if n == 0 {
        0
    } else {
        2 * msb_value(v, (n - 1) as nat) + (v / pow2((n - 1) as nat)) % 2
    }
}

/// Pulls bits out of a sequence of byte slices.
///
/// The bits still to be read, lowest first, are those of `bits_value()`, of
/// which there are `bit_len()`: first the spare bits already pulled out of
/// the bytes, then the bits of every byte left.
pub struct BitSource<'b> {
    current: &'b [u8],
    more: &'b [&'b [u8]],
    more_pos: usize,
    spare_bits: u32,
    spare_bit_count: u32,
}

proof fn lemma_concat_step(ss: Seq<&[u8]>, p: int)
    requires
        0 <= p < ss.len(),
    ensures
        concat_slices(ss.skip(p)) == ss[p]@ + concat_slices(ss.skip(p + 1)),
{
    assert(ss.skip(p).skip(1) =~= ss.skip(p + 1));
}

/// Splitting the low `n` bits off a number `s + 2^c * rest` whose low `c`
/// bits are `s`.
proof fn lemma_take_bits(s: nat, c: nat, n: nat, rest: nat)
    requires
        s < pow2(c),
        n <= c,
    ensures
        (s + pow2(c) * rest) % pow2(n) == s % pow2(n),
        (s + pow2(c) * rest) / pow2(n) == s / pow2(n) + pow2((c - n) as nat) * rest,
        s / pow2(n) < pow2((c - n) as nat),
{
    let m = pow2(n) as int;
    let k = pow2((c - n) as nat) as int;
    lemma_pow2_pos(n);
    lemma_pow2_pos((c - n) as nat);
    lemma_pow2_adds(n, (c - n) as nat);
    assert(pow2(c) == m * k);
    lemma_fundamental_div_mod(s as int, m);
    let x = s as int / m + k * rest;
    let b = s as int % m;
    assert(s + pow2(c) * rest == m * x + b) by (nonlinear_arith)
        requires
            s == m * (s as int / m) + b,
            pow2(c) == m * k,
            x == s as int / m + k * rest,
    ;
    lemma_div_multiples_vanish_fancy(x, b, m);
    lemma_fundamental_div_mod(m * x + b, m);
    assert(s as int / m < k) by (nonlinear_arith)
        requires
            s == m * (s as int / m) + b,
            0 <= b,
            s < m * k,
            m > 0,
    ;
}

/// Putting a byte above the `c` spare bits keeps the value of the stream.
proof fn lemma_push_byte(s: nat, c: nat, b: u8, rest: Seq<u8>)
    requires
        s < pow2(c),
        rest.len() > 0,
        b == rest[0],
    ensures
        s + pow2(c) * b < pow2(c + 8),
        s + pow2(c) * le_value(rest) == (s + pow2(c) * b) + pow2(c + 8) * le_value(rest.skip(1)),
{
    lemma_pow2_adds(c, 8);
    lemma2_to64();
    let p = pow2(c) as int;
    assert(pow2(c + 8) == p * 256);
    assert(s + p * b < p * 256) by (nonlinear_arith)
        requires
            s < p,
            b <= 255,
    ;
    assert(p * le_value(rest) == p * b + (p * 256) * le_value(rest.skip(1))) by (nonlinear_arith)
        requires
            le_value(rest) == b + 256 * le_value(rest.skip(1)),
    ;
}

impl<'b> BitSource<'b> {
    /// The bytes that have not been pulled into the spare bits yet.
    pub closed spec fn bytes_left(&self) -> Seq<u8> {
        self.current@ + concat_slices(self.more@.skip(self.more_pos as int))
    }

    /// The bytes not pulled into the spare bits yet, slice by slice: what is
    /// left of the slice being read (when anything is), then each slice
    /// still to come.
    pub closed spec fn pieces(&self) -> Seq<Seq<u8>> {
        let rest = self.more@.skip(self.more_pos as int).map_values(|t: &[u8]| t@);
        if self.current@.len() > 0 { seq![self.current@] + rest } else { rest }
    }

    /// How many bits have been pulled out of the bytes but not read yet.
    pub closed spec fn spare_count(&self) -> nat {
        self.spare_bit_count as nat
    }

    /// The value of the spare bits.
    pub closed spec fn spare_value(&self) -> nat {
        self.spare_bits as nat
    }

    /// All the bits still to be read, as a number (first bit lowest).
    pub open spec fn bits_value(&self) -> nat {
        self.spare_value() + pow2(self.spare_count()) * le_value(self.bytes_left())
    }

    /// The number of bits still to be read.
    pub open spec fn bit_len(&self) -> nat {
        self.spare_count() + 8 * self.bytes_left().len()
    }

    /// The spare bits fit their count, and no slice still to come is empty.
    pub closed spec fn wf(&self) -> bool {
        &&& self.spare_bit_count <= 32
        &&& self.spare_bits < pow2(self.spare_bit_count as nat)
        &&& self.more_pos <= self.more@.len()
        &&& forall|k: int| self.more_pos <= k < self.more@.len() ==> (#[trigger] self.more@[k])@.len() > 0
    }

    /// Reads `current`, then each slice of `more` in turn.
    pub fn new(current: &'b [u8], more: &'b [&'b [u8]]) -> (bs: Self)
        requires
            slices_nonempty(more@),
        ensures
            bs.wf(),
            bs.bytes_left() == current@ + concat_slices(more@),
            bs.pieces() == (if current@.len() > 0 { seq![current@] } else { Seq::empty() }) + more@.map_values(|t: &[u8]| t@),
            bs.spare_count() == 0,
            bs.spare_value() == 0,
    {
        let bs = BitSource { current, more, more_pos: 0, spare_bits: 0, spare_bit_count: 0 };
        proof {
            assert(more@.skip(0) =~= more@);
            assert(bs.pieces() =~= (if current@.len() > 0 { seq![current@] } else { Seq::empty() }) + more@.map_values(|t: &[u8]| t@));
            lemma2_to64();
        }
        bs
    }

    fn grab_byte(&mut self) -> (r: PngResult<u8>)
        requires
            old(self).wf(),
        ensures
            final(self).wf(),
            final(self).spare_count() == old(self).spare_count(),
            final(self).spare_value() == old(self).spare_value(),
            match r {
                Ok(b) => old(self).bytes_left().len() > 0 && b == old(self).bytes_left()[0]
                    && final(self).bytes_left() == old(self).bytes_left().skip(1),
                Err(e) => e == PngError::UnexpectedEndOfInput && old(self).bytes_left().len() == 0
                    && final(self).bytes_left() == old(self).bytes_left(),
            },
    {
        if self.current.len() == 0 {
            if self.more_pos < self.more.len() {
                proof {
                    lemma_concat_step(self.more@, self.more_pos as int);
                    assert(self.current@ + concat_slices(self.more@.skip(self.more_pos as int))
                        =~= self.more@[self.more_pos as int]@ + concat_slices(self.more@.skip(self.more_pos + 1)));
                }
                self.current = self.more[self.more_pos];
                self.more_pos = self.more_pos + 1;
            } else {
                proof {
                    assert(self.more@.skip(self.more_pos as int) =~= Seq::<&[u8]>::empty());
                    assert(self.bytes_left() =~= Seq::<u8>::empty());
                }
                return Err(PngError::UnexpectedEndOfInput);
            }
        }
        let n = self.current[0];
        let len = self.current.len();
        let ghost before = self.bytes_left();
        self.current = vstd::slice::slice_subrange(self.current, 1, len);
        proof {
            assert(self.bytes_left() =~= before.skip(1));
        }
        Ok(n)
    }

    /// Pulls whole bytes into the spare bits until at least `count_after` are
    /// there.
    fn feed(&mut self, count_after: u32) -> (r: PngResult<()>)
        requires
            old(self).wf(),
            old(self).spare_count() < count_after < 24,
        ensures
            final(self).wf(),
            final(self).bits_value() == old(self).bits_value(),
            final(self).bit_len() == old(self).bit_len(),
            match r {
                Ok(_) => old(self).bit_len() >= count_after && count_after <= final(self).spare_count() < count_after + 8,
                Err(e) => e == PngError::UnexpectedEndOfInput && old(self).bit_len() < count_after
                    && final(self).bytes_left().len() == 0,
            },
    {
        while count_after > self.spare_bit_count
            invariant
                self.wf(),
                self.bits_value() == old(self).bits_value(),
                self.bit_len() == old(self).bit_len(),
                self.spare_bit_count < count_after + 8,
                count_after < 24,
            decreases self.bytes_left().len(),
        {
            let ghost s0 = self.spare_bits as nat;
            let ghost c0 = self.spare_bit_count as nat;
            let ghost bytes0 = self.bytes_left();
            let new_byte = match self.grab_byte() {
                Ok(b) => b,
                Err(e) => {
                    return Err(e);
                },
            };
            let c = self.spare_bit_count;
            let s = self.spare_bits;
            proof {
                lemma_push_byte(s0, c0, new_byte, bytes0);
                lemma2_to64();
                lemma_pow2_strictly_increases(c0, 23);
                lemma_u32_shl_is_mul(1u32, c);
                lemma_u32_shl_is_mul(new_byte as u32, c);
                assert(s < (1u32 << c));
                assert((s | ((new_byte as u32) << c)) == s + ((new_byte as u32) << c)) by (bit_vector)
                    requires
                        c < 24,
                        new_byte < 256,
                        s < (1u32 << c),
                ;
            }
            self.spare_bits = s | ((new_byte as u32) << c);
            self.spare_bit_count = c + 8;
        }
        Ok(())
    }

    /// Removes `n` (at most `spare_count`) bits from the spare bits and gives
    /// them back.
    fn take_spare(&mut self, n: u32) -> (v: u32)
        requires
            old(self).wf(),
            n <= old(self).spare_count(),
            n < 32,
        ensures
            final(self).wf(),
            v == old(self).bits_value() % pow2(n as nat),
            final(self).bits_value() == old(self).bits_value() / pow2(n as nat),
            final(self).bit_len() == old(self).bit_len() - n,
            final(self).bytes_left() == old(self).bytes_left(),
            final(self).spare_count() == old(self).spare_count() - n,
    {
        let s = self.spare_bits;
        let c = self.spare_bit_count;
        proof {
            lemma_take_bits(s as nat, c as nat, n as nat, le_value(self.bytes_left()));
            vstd::bits::lemma_u32_pow2_no_overflow(n as nat);
            lemma_u32_shl_is_mul(1u32, n);
            lemma_u32_low_bits_mask_is_mod(s, n as nat);
            lemma_u32_shr_is_div(s, n);
            assert(low_bits_mask(n as nat) == pow2(n as nat) - 1);
        }
        let v = s & ((1u32 << n) - 1);
        self.spare_bits = s >> n;
        self.spare_bit_count = c - n;
        v
    }

    /// Reads the final-block flag of a deflate block.
    pub fn next_bfinal(&mut self) -> (r: PngResult<bool>)
        requires
            old(self).wf(),
        ensures
            final(self).wf(),
            match r {
                Ok(b) => old(self).bit_len() >= 1 && b == (old(self).bits_value() % 2 == 1)
                    && final(self).bits_value() == old(self).bits_value() / 2
                    && final(self).bit_len() == old(self).bit_len() - 1,
                Err(e) => e == PngError::UnexpectedEndOfInput && old(self).bit_len() < 1
                    && final(self).bits_value() == old(self).bits_value()
                    && final(self).bit_len() == old(self).bit_len(),
            },
    {
        self.next_one_bit()
    }

    /// Reads the two-bit block type of a deflate block.
    pub fn next_btype(&mut self) -> (r: PngResult<usize>)
        requires
            old(self).wf(),
        ensures
            final(self).wf(),
            match r {
                Ok(v) => old(self).bit_len() >= 2 && v == old(self).bits_value() % 4
                    && final(self).bits_value() == old(self).bits_value() / 4
                    && final(self).bit_len() == old(self).bit_len() - 2,
                Err(e) => e == PngError::UnexpectedEndOfInput && old(self).bit_len() < 2
                    && final(self).bits_value() == old(self).bits_value()
                    && final(self).bit_len() == old(self).bit_len(),
            },
    {
        proof {
            lemma2_to64();
        }
        self.next_bits_lsb(2)
    }

    /// Reads one bit.
    pub fn next_one_bit(&mut self) -> (r: PngResult<bool>)
        requires
            old(self).wf(),
        ensures
            final(self).wf(),
            match r {
                Ok(b) => old(self).bit_len() >= 1 && b == (old(self).bits_value() % 2 == 1)
                    && final(self).bits_value() == old(self).bits_value() / 2
                    && final(self).bit_len() == old(self).bit_len() - 1,
                Err(e) => e == PngError::UnexpectedEndOfInput && old(self).bit_len() < 1
                    && final(self).bits_value() == old(self).bits_value()
                    && final(self).bit_len() == old(self).bit_len(),
            },
    {
        if self.spare_bit_count < 1 {
            match self.feed(1) {
                Ok(_) => {},
                Err(e) => {
                    return Err(e);
                },
            }
        }
        proof {
            lemma2_to64();
        }
        let v = self.take_spare(1);
        Ok(v != 0)
    }

    /// Reads the next `count` bits, the first bit read being the most
    /// significant bit of the result (as Huffman codes are stored).
    pub fn next_bits_msb(&mut self, count: u32) -> (r: PngResult<usize>)
        requires
            old(self).wf(),
            1 <= count < 24,
        ensures
            final(self).wf(),
            match r {
                Ok(v) => old(self).bit_len() >= count && v == msb_value(old(self).bits_value(), count as nat)
                    && final(self).bits_value() == old(self).bits_value() / pow2(count as nat)
                    && final(self).bit_len() == old(self).bit_len() - count,
                Err(e) => e == PngError::UnexpectedEndOfInput && old(self).bit_len() < count
                    && final(self).bits_value() == old(self).bits_value()
                    && final(self).bit_len() == old(self).bit_len(),
            },
    {
        if self.spare_bit_count < count {
            match self.feed(count) {
                Ok(_) => {},
                Err(e) => {
                    return Err(e);
                },
            }
        }
        let ghost v0 = self.bits_value();
        let mut out: usize = 0;
        let mut k: u32 = 0;
        proof {
            lemma2_to64();
            assert(v0 / pow2(0) == v0);
        }
        while k < count
            invariant
                self.wf(),
                k <= count < 24,
                self.spare_count() >= count - k,
                out == msb_value(v0, k as nat),
                out < pow2(k as nat),
                self.bits_value() == v0 / pow2(k as nat),
                self.bit_len() == old(self).bit_len() - k,
                old(self).bit_len() >= count,
            decreases count - k,
        {
            proof {
                lemma2_to64();
            }
            let ghost before = self.bits_value();
            let b = self.take_spare(1);
            proof {
                lemma_pow2_pos(k as nat);
                lemma_div_denominator(v0 as int, pow2(k as nat) as int, 2);
                lemma_pow2_adds(k as nat, 1);
                lemma_pow2_strictly_increases(k as nat, 23);
                assert(2 * out + b < pow2((k + 1) as nat));
            }
            out = 2 * out + b as usize;
            k = k + 1;
        }
        Ok(out)
    }

    /// Reads the next `count` bits, the first bit read being the least
    /// significant bit of the result (as deflate's other fields are stored).
    pub fn next_bits_lsb(&mut self, count: u32) -> (r: PngResult<usize>)
        requires
            old(self).wf(),
            count < 24,
        ensures
            final(self).wf(),
            match r {
                Ok(v) => old(self).bit_len() >= count && v == old(self).bits_value() % pow2(count as nat)
                    && final(self).bits_value() == old(self).bits_value() / pow2(count as nat)
                    && final(self).bit_len() == old(self).bit_len() - count,
                Err(e) => e == PngError::UnexpectedEndOfInput && old(self).bit_len() < count
                    && final(self).bits_value() == old(self).bits_value()
                    && final(self).bit_len() == old(self).bit_len(),
            },
    {
        if self.spare_bit_count < count {
            match self.feed(count) {
                Ok(_) => {},
                Err(e) => {
                    return Err(e);
                },
            }
        }
        let v = self.take_spare(count);
        Ok(v as usize)
    }

    /// Drops the bits up to the next byte boundary of the stream (as many as
    /// there are spare bits beyond whole bytes).
    pub(crate) fn align_to_byte(&mut self)
        requires
            old(self).wf(),
        ensures
            final(self).wf(),
            final(self).bits_value() == old(self).bits_value() / pow2(old(self).bit_len() % 8),
            final(self).bit_len() == old(self).bit_len() - old(self).bit_len() % 8,
    {
        let k = self.spare_bit_count % 8;
        proof {
            vstd::arithmetic::div_mod::lemma_mod_multiples_vanish(
                self.bytes_left().len() as int,
                self.spare_bit_count as int,
                8,
            );
            assert(self.bit_len() % 8 == k);
        }
        let _ = self.take_spare(k);
    }

    /// Drops the spare bits, so that reading goes on at a byte boundary.
    pub fn flush_spare_bits(&mut self)
        requires
            old(self).wf(),
        ensures
            final(self).wf(),
            final(self).spare_count() == 0,
            final(self).bytes_left() == old(self).bytes_left(),
            final(self).bits_value() == le_value(old(self).bytes_left()),
    {
        self.spare_bit_count = 0;
        self.spare_bits = 0;
        proof {
            lemma2_to64();
        }
    }

    /// Reads the four bytes after the spare bits as two `u16` values, each
    /// high byte first.
    pub fn next_len_nlen(&mut self) -> (r: PngResult<(u16, u16)>)
        requires
            old(self).wf(),
        ensures
            final(self).wf(),
            final(self).spare_count() == old(self).spare_count(),
            final(self).spare_value() == old(self).spare_value(),
            match r {
                Ok((a, b)) => {
                    let s = old(self).bytes_left();
                    &&& s.len() >= 4
                    &&& a == s[0] * 256 + s[1]
                    &&& b == s[2] * 256 + s[3]
                    &&& final(self).bytes_left() == s.skip(4)
                },
                Err(e) => e == PngError::UnexpectedEndOfInput && old(self).bytes_left().len() < 4
                    && final(self).bytes_left().len() == 0,
            },
    {
        let ghost s = self.bytes_left();
        let a = match self.grab_byte() {
            Ok(x) => x,
            Err(e) => {
                return Err(e);
            },
        };
        let b = match self.grab_byte() {
            Ok(x) => x,
            Err(e) => {
                return Err(e);
            },
        };
        let c = match self.grab_byte() {
            Ok(x) => x,
            Err(e) => {
                return Err(e);
            },
        };
        let d = match self.grab_byte() {
            Ok(x) => x,
            Err(e) => {
                return Err(e);
            },
        };
        proof {
            assert(s.skip(1).skip(1).skip(1).skip(1) =~= s.skip(4));
        }
        Ok((crate::int_endian::u16_from_be(a, b), crate::int_endian::u16_from_be(c, d)))
    }

    /// Hands out up to `n` bytes after the spare bits, never from two slices:
    /// the first `n` of what is left of the slice being read, or of the next
    /// slice when that one is used up.
    pub fn next_up_to_n_bytes(&mut self, n: usize) -> (r: PngResult<&'b [u8]>)
        requires
            old(self).wf(),
        ensures
            final(self).wf(),
            final(self).spare_count() == old(self).spare_count(),
            final(self).spare_value() == old(self).spare_value(),
            (r is Err) <==> old(self).pieces().len() == 0,
            r is Err ==> final(self).pieces() == old(self).pieces(),
            r is Ok ==> ({
                let p = old(self).pieces();
                if n < p[0].len() {
                    r->Ok_0@ == p[0].take(n as int) && final(self).pieces() == seq![p[0].skip(n as int)] + p.skip(1)
                } else {
                    r->Ok_0@ == p[0] && final(self).pieces() == p.skip(1)
                }
            }),
            match r {
                Ok(s) => {
                    &&& s@.len() <= n
                    &&& s@.len() <= old(self).bytes_left().len()
                    &&& (n > 0 ==> s@.len() > 0)
                    &&& old(self).bytes_left().len() > 0
                    &&& s@ == old(self).bytes_left().take(s@.len() as int)
                    &&& final(self).bytes_left() == old(self).bytes_left().skip(s@.len() as int)
                },
                Err(e) => e == PngError::UnexpectedEndOfInput && old(self).bytes_left().len() == 0
                    && final(self).bytes_left() == old(self).bytes_left(),
            },
    {
        if self.current.len() == 0 {
            if self.more_pos < self.more.len() {
                proof {
                    lemma_concat_step(self.more@, self.more_pos as int);
                    assert(self.current@ + concat_slices(self.more@.skip(self.more_pos as int))
                        =~= self.more@[self.more_pos as int]@ + concat_slices(self.more@.skip(self.more_pos + 1)));
                }
                let ghost p0 = self.pieces();
                self.current = self.more[self.more_pos];
                self.more_pos = self.more_pos + 1;
                proof {
                    assert(self.pieces() =~= p0);
                }
            } else {
                proof {
                    assert(self.more@.skip(self.more_pos as int) =~= Seq::<&[u8]>::empty());
                    assert(self.bytes_left() =~= Seq::<u8>::empty());
                    assert(self.pieces() =~= Seq::<Seq<u8>>::empty());
                }
                return Err(PngError::UnexpectedEndOfInput);
            }
        }
        let ghost before = self.bytes_left();
        let ghost p = self.pieces();
        let ghost rest = self.more@.skip(self.more_pos as int).map_values(|t: &[u8]| t@);
        assert(p[0] == self.current@);
        assert(p.skip(1) =~= rest);
        let len = self.current.len();
        if len > n {
            let a = vstd::slice::slice_subrange(self.current, 0, n);
            self.current = vstd::slice::slice_subrange(self.current, n, len);
            proof {
                assert(a@ =~= before.take(n as int));
                assert(a@ =~= p[0].take(n as int));
                assert(self.bytes_left() =~= before.skip(n as int));
                assert(self.current@ =~= p[0].skip(n as int));
                assert(self.pieces() =~= seq![p[0].skip(n as int)] + p.skip(1));
            }
            Ok(a)
        } else {
            let out = self.current;
            self.current = vstd::slice::slice_subrange(self.current, len, len);
            proof {
                assert(out@ =~= before.take(len as int));
                assert(self.bytes_left() =~= before.skip(len as int));
                assert(self.pieces() =~= p.skip(1));
            }
            Ok(out)
        }
    }
}

} // verus!
