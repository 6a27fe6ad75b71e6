//! Splitting bytes into the bit fields packed in them, highest bits first,
//! and grouping items into fixed-size runs.
use vstd::prelude::*;

verus! {

/// Bit `7 - (i % 8)` of byte `i / 8`: the bits of `bytes` from high to low.
pub open spec fn bits_high_to_low(bytes: Seq<u8>) -> Seq<bool> {
    Seq::new(bytes.len() * 8, |i: int| (bytes[i / 8] >> ((7 - i % 8) as u8)) & 1u8 == 1u8)
}

/// The 2-bit fields of `bytes`, high to low.
pub open spec fn pairs_high_to_low(bytes: Seq<u8>) -> Seq<u8> {
    Seq::new(bytes.len() * 4, |i: int| (bytes[i / 4] >> ((6 - 2 * (i % 4)) as u8)) & 3u8)
}

/// The 4-bit fields of `bytes`, high to low.
pub open spec fn nibbles_high_to_low(bytes: Seq<u8>) -> Seq<u8> {
    Seq::new(bytes.len() * 2, |i: int| (bytes[i / 2] >> ((4 - 4 * (i % 2)) as u8)) & 15u8)
}

/// Every bit of the bytes, going from high to low within each byte.
pub fn iter_1bpp_high_to_low(bytes: &[u8]) -> (v: Vec<bool>)
    ensures
        v@ == bits_high_to_low(bytes@),
{
    let mut v: Vec<bool> = Vec::new();
    let mut i: usize = 0;
    while i < bytes.len()
        invariant
            i <= bytes@.len(),
            v@ == bits_high_to_low(bytes@.take(i as int)),
        decreases bytes@.len() - i,
    {
        let byte = bytes[i];
        let ghost before = v@;
        let mut k: u8 = 0;
        while k < 8
            invariant
                k <= 8,
                v@.len() == before.len() + k,
                forall|j: int| 0 <= j < before.len() ==> v@[j] == before[j],
                forall|j: int| 0 <= j < k ==> #[trigger] v@[before.len() + j] == ((byte >> ((7 - j) as u8)) & 1u8 == 1u8),
            decreases 8 - k,
        {
            v.push((byte >> (7 - k)) & 1 == 1);
            k = k + 1;
        }
        proof {
            let t = bytes@.take(i + 1);
            assert(t[i as int] == byte);
            assert(v@ =~= bits_high_to_low(t)) by {
                assert forall|j: int| 0 <= j < v@.len() implies v@[j] == bits_high_to_low(t)[j] by {
                    if j < before.len() {
                        assert(j / 8 < i) by (nonlinear_arith)
                            requires
                                j < i * 8,
                                0 <= j,
                        ;
                        assert(bytes@.take(i as int)[j / 8] == t[j / 8]);
                        assert(v@[j] == before[j]);
                        assert(before[j] == bits_high_to_low(bytes@.take(i as int))[j]);
                    } else {
                        let q = j - before.len();
                        assert(before.len() == i * 8);
                        assert(v@[before.len() + q] == v@[j]);
                        assert(j / 8 == i as int && j % 8 == q) by (nonlinear_arith)
                            requires
                                j == i * 8 + q,
                                0 <= q < 8,
                        ;
                        assert(v@[before.len() + q] == ((byte >> ((7 - q) as u8)) & 1u8 == 1u8));
                        assert(bits_high_to_low(t)[j] == ((t[j / 8] >> ((7 - j % 8) as u8)) & 1u8 == 1u8));
                        assert(t[j / 8] == byte);
                        assert(((7 - j % 8) as u8) == ((7 - q) as u8));
                    }
                }
            }
        }
        i = i + 1;
    }
    proof {
        assert(bytes@.take(bytes@.len() as int) =~= bytes@);
    }
    v
}

/// Every 2-bit field of the bytes, going from high to low within each byte.
pub fn iter_2bpp_high_to_low(bytes: &[u8]) -> (v: Vec<u8>)
    ensures
        v@ == pairs_high_to_low(bytes@),
{
    let mut v: Vec<u8> = Vec::new();
    let mut i: usize = 0;
    while i < bytes.len()
        invariant
            i <= bytes@.len(),
            v@ == pairs_high_to_low(bytes@.take(i as int)),
        decreases bytes@.len() - i,
    {
        let byte = bytes[i];
        let ghost before = v@;
        let mut k: u8 = 0;
        while k < 4
            invariant
                k <= 4,
                v@.len() == before.len() + k,
                forall|j: int| 0 <= j < before.len() ==> v@[j] == before[j],
                forall|j: int| 0 <= j < k ==> #[trigger] v@[before.len() + j] == (byte >> ((6 - 2 * j) as u8)) & 3u8,
            decreases 4 - k,
        {
            v.push((byte >> (6 - 2 * k)) & 3);
            k = k + 1;
        }
        proof {
            let t = bytes@.take(i + 1);
            assert(t[i as int] == byte);
            assert(v@ =~= pairs_high_to_low(t)) by {
                assert forall|j: int| 0 <= j < v@.len() implies v@[j] == pairs_high_to_low(t)[j] by {
                    if j < before.len() {
                        assert(j / 4 < i) by (nonlinear_arith)
                            requires
                                j < i * 4,
                                0 <= j,
                        ;
                        assert(bytes@.take(i as int)[j / 4] == t[j / 4]);
                        assert(v@[j] == before[j]);
                        assert(before[j] == pairs_high_to_low(bytes@.take(i as int))[j]);
                    } else {
                        let q = j - before.len();
                        assert(before.len() == i * 4);
                        assert(v@[before.len() + q] == v@[j]);
                        assert(j / 4 == i as int && j % 4 == q) by (nonlinear_arith)
                            requires
                                j == i * 4 + q,
                                0 <= q < 4,
                        ;
                        assert(t[j / 4] == byte);
                        assert(((6 - 2 * (j % 4)) as u8) == ((6 - 2 * q) as u8));
                    }
                }
            }
        }
        i = i + 1;
    }
    proof {
        assert(bytes@.take(bytes@.len() as int) =~= bytes@);
    }
    v
}

/// Every 4-bit field of the bytes, high nibble first.
pub fn iter_4bpp_high_to_low(bytes: &[u8]) -> (v: Vec<u8>)
    ensures
        v@ == nibbles_high_to_low(bytes@),
{
    let mut v: Vec<u8> = Vec::new();
    let mut i: usize = 0;
    while i < bytes.len()
        invariant
            i <= bytes@.len(),
            v@ == nibbles_high_to_low(bytes@.take(i as int)),
        decreases bytes@.len() - i,
    {
        let byte = bytes[i];
        let ghost before = v@;
        v.push((byte >> 4u8) & 15);
        v.push(byte & 15);
        assert((byte >> 0u8) & 15u8 == byte & 15u8) by (bit_vector);
        proof {
            let t = bytes@.take(i + 1);
            assert(t[i as int] == byte);
            assert(v@ =~= nibbles_high_to_low(t)) by {
                assert forall|j: int| 0 <= j < v@.len() implies v@[j] == nibbles_high_to_low(t)[j] by {
                    if j < before.len() {
                        assert(j / 2 < i) by (nonlinear_arith)
                            requires
                                j < i * 2,
                                0 <= j,
                        ;
                        assert(bytes@.take(i as int)[j / 2] == t[j / 2]);
                    } else {
                        let q = j - before.len();
                        assert(j / 2 == i as int && j % 2 == q) by (nonlinear_arith)
                            requires
                                j == i * 2 + q,
                                0 <= q < 2,
                        ;
                    }
                }
            }
        }
        i = i + 1;
    }
    proof {
        assert(bytes@.take(bytes@.len() as int) =~= bytes@);
    }
    v
}

/// Hands out the items of a sequence `N` at a time; a final run of fewer
/// than `N` items is dropped.
pub struct BulkenIter<T, const N: usize> {
    items: Vec<T>,
    pos: usize,
}

impl<T: Copy, const N: usize> BulkenIter<T, N> {
    /// The items not handed out yet.
    pub closed spec fn remaining(&self) -> Seq<T> {
        self.items@.skip(self.pos as int)
    }

    /// The position is within the items.
    pub closed spec fn wf(&self) -> bool {
        self.pos <= self.items@.len()
    }

    /// Starts at the first item.
    pub fn new(items: Vec<T>) -> (it: Self)
        ensures
            it.wf(),
            it.remaining() == items@,
    {
        let it = BulkenIter { items, pos: 0 };
        assert(it.items@.skip(0) =~= it.items@);
        it
    }

    /// The next `N` items, if there are that many left.
    pub fn next(&mut self) -> (r: Option<Vec<T>>)
        requires
            old(self).wf(),
        ensures
            final(self).wf(),
            old(self).remaining().len() >= N ==> (r matches Some(v) && v@ == old(self).remaining().take(N as int)
                && final(self).remaining() == old(self).remaining().skip(N as int)),
            old(self).remaining().len() < N ==> r is None && final(self).remaining() == Seq::<T>::empty(),
    {
        let len = self.items.len();
        if len - self.pos < N {
            self.pos = len;
            assert(self.items@.skip(len as int) =~= Seq::<T>::empty());
            return None;
        }
        let mut out: Vec<T> = Vec::new();
        let mut k: usize = 0;
        while k < N
            invariant
                k <= N,
                self.pos + N <= self.items@.len(),
                len == self.items@.len(),
                out@ == self.items@.subrange(self.pos as int, self.pos + k),
            decreases N - k,
        {
            out.push(self.items[self.pos + k]);
            k = k + 1;
            assert(out@ =~= self.items@.subrange(self.pos as int, self.pos + k));
        }
        let ghost before = self.remaining();
        assert(out@ =~= before.take(N as int));
        self.pos = self.pos + N;
        assert(self.remaining() =~= before.skip(N as int));
        Some(out)
    }
}

} // verus!
