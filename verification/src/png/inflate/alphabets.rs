//! The three Huffman alphabets of a deflate block: code lengths,
//! literals/lengths, and distances.
use vstd::prelude::*;
use vstd::arithmetic::power2::{pow2, lemma2_to64, lemma_pow2_pos, lemma_pow2_adds};
use vstd::arithmetic::div_mod::lemma_div_denominator;
use crate::png::png_error::{PngError, PngResult};
use crate::png::inflate::bit_source::{BitSource, msb_value};
use crate::png::inflate::tree_entry::{TreeEntry, codes_filled};

verus! {

/// The smallest non-zero code length among the first `upto` entries, or 15
/// when that is smaller (or there is none).
pub open spec fn min_bits(t: Seq<TreeEntry>, upto: int) -> u16
    decreases upto,
{
    if upto <= 0 {
        15
    } else {
        let m = min_bits(t, upto - 1);
        let bc = t[upto - 1].bit_count;
        if bc != 0 && bc < m { bc } else { m }
    }
}

/// The largest code length among the first `upto` entries (0 when none).
pub open spec fn max_bits(t: Seq<TreeEntry>, upto: int) -> u16
    decreases upto,
{
    if upto <= 0 {
        0
    } else {
        let m = max_bits(t, upto - 1);
        let bc = t[upto - 1].bit_count;
        if bc != 0 && bc > m { bc } else { m }
    }
}

/// The first index at or after `i` that holds `k`.
pub open spec fn find_from(t: Seq<TreeEntry>, k: TreeEntry, i: int) -> Option<int>
    decreases t.len() - i,
{
    if i < 0 || i >= t.len() {
        None
    } else if t[i] == k {
        Some(i)
    } else {
        find_from(t, k, i + 1)
    }
}

/// The search key after reading `len` bits of `v`: the bits in reading order
/// (kept to 16 bits) and their count (as a `u16`).
pub open spec fn key_at(v: nat, len: nat) -> TreeEntry {
    TreeEntry { bit_pattern: (msb_value(v, len) % 0x1_0000) as u16, bit_count: (len % 0x1_0000) as u16 }
}

/// Decoding one symbol from the bits `v` (of which there are `avail`), once
/// `len` bits have been read: the entry matching the key, else one bit more,
/// failing when the bits run out or (when there is a `max`) the key gets
/// longer than `max`. Gives the result and the number of bits read.
pub open spec fn huff_search(t: Seq<TreeEntry>, v: nat, avail: nat, len: nat, max: Option<u16>, not_found: PngError) -> (PngResult<usize>, nat)
    decreases avail - len,
{
    if len > avail {
        (Err(PngError::UnexpectedEndOfInput), avail)
    } else {
        match find_from(t, key_at(v, len), 0) {
            Some(p) => (Ok(p as usize), len),
            None => if len + 1 > avail {
                (Err(PngError::UnexpectedEndOfInput), avail)
            } else if max is Some && len + 1 > max->0 {
                (Err(not_found), len + 1)
            } else {
                huff_search(t, v, avail, len + 1, max, not_found)
            },
        }
    }
}

fn find_entry(tree: &[TreeEntry], key: TreeEntry) -> (r: Option<usize>)
    ensures
        match r {
            Some(p) => find_from(tree@, key, 0) == Some(p as int),
            None => find_from(tree@, key, 0) is None,
        },
{
    let n = tree.len();
    let mut i: usize = 0;
    while i < n
        invariant
            n == tree@.len(),
            i <= n,
            find_from(tree@, key, 0) == find_from(tree@, key, i as int),
        decreases n - i,
    {
        if tree[i] == key {
            return Some(i);
        }
        i = i + 1;
    }
    None
}

/// The smallest (at most 15) and largest non-zero code lengths of a tree.
fn min_max_bit_counts(tree: &[TreeEntry]) -> (r: (u16, u16))
    ensures
        r.0 == min_bits(tree@, tree@.len() as int),
        r.1 == max_bits(tree@, tree@.len() as int),
{
    let n = tree.len();
    let mut lo: u16 = 15;
    let mut hi: u16 = 0;
    let mut i: usize = 0;
    while i < n
        invariant
            n == tree@.len(),
            i <= n,
            lo == min_bits(tree@, i as int),
            hi == max_bits(tree@, i as int),
        decreases n - i,
    {
        let bc = tree[i].bit_count;
        if bc != 0 {
            if bc < lo {
                lo = bc;
            }
            if bc > hi {
                hi = bc;
            }
        }
        i = i + 1;
    }
    (lo, hi)
}

proof fn lemma_key_step(v: nat, len: nat, p: u16, bit: bool)
    requires
        p as nat == msb_value(v, len) % 0x1_0000,
        bit == ((v / pow2(len)) % 2 == 1),
    ensures
        ((p as nat * 2) % 0x1_0000 + if bit { 1nat } else { 0nat }) == msb_value(v, len + 1) % 0x1_0000,
{
    let m = msb_value(v, len);
    assert(msb_value(v, len + 1) == 2 * m + (v / pow2(len)) % 2);
    let b: nat = if bit { 1 } else { 0 };
    assert(((m % 0x1_0000) * 2) % 0x1_0000 + b == (2 * m + b) % 0x1_0000) by (nonlinear_arith)
        requires
            b <= 1,
    ;
}

/// Decodes one symbol of `tree` from `bi`, as described by `huff_search`
/// started after `min` bits.
fn pull_and_match_in(tree: &[TreeEntry], min: u16, max: Option<u16>, not_found: PngError, bi: &mut BitSource) -> (r: PngResult<usize>)
    requires
        old(bi).wf(),
        1 <= min <= 15,
        max matches Some(m) ==> m <= 15,
    ensures
        final(bi).wf(),
        final(bi).bit_len() <= old(bi).bit_len(),
        r == huff_search(tree@, old(bi).bits_value(), old(bi).bit_len(), min as nat, max, not_found).0,
        r is Ok ==> {
            let used = huff_search(tree@, old(bi).bits_value(), old(bi).bit_len(), min as nat, max, not_found).1;
            &&& final(bi).bits_value() == old(bi).bits_value() / pow2(used)
            &&& final(bi).bit_len() == old(bi).bit_len() - used
        },
{
    let ghost v0 = bi.bits_value();
    let ghost l0 = bi.bit_len();
    let first = match bi.next_bits_msb(min as u32) {
        Ok(x) => x,
        Err(e) => {
            return Err(e);
        },
    };
    proof {
        lemma_pow2_pos(min as nat);
        msb_bound(v0, min as nat);
        lemma2_to64();
        vstd::arithmetic::power2::lemma_pow2_strictly_increases(min as nat, 16);
    }
    let mut key = TreeEntry { bit_pattern: first as u16, bit_count: min };
    let ghost mut len: nat = min as nat;
    loop
        invariant
            bi.wf(),
            key == key_at(v0, len),
            min <= len <= l0,
            bi.bits_value() == v0 / pow2(len),
            bi.bit_len() == l0 - len,
            huff_search(tree@, v0, l0, min as nat, max, not_found) == huff_search(tree@, v0, l0, len, max, not_found),
            v0 == old(bi).bits_value(),
            l0 == old(bi).bit_len(),
            max is Some ==> len <= 15,
            max matches Some(m) ==> m <= 15,
        decreases l0 - len,
    {
        match find_entry(tree, key) {
            Some(pos) => {
                assert(huff_search(tree@, v0, l0, len, max, not_found) == (Ok::<usize, PngError>(pos), len));
                return Ok(pos);
            },
            None => {},
        }
        let bit = match bi.next_one_bit() {
            Ok(b) => b,
            Err(e) => {
                assert(huff_search(tree@, v0, l0, len, max, not_found) == (Err::<usize, PngError>(PngError::UnexpectedEndOfInput), l0));
                return Err(e);
            },
        };
        let kp = key.bit_pattern;
        proof {
            lemma_pow2_pos(len);
            lemma_div_denominator(v0 as int, pow2(len) as int, 2);
            lemma_pow2_adds(len, 1);
            lemma2_to64();
            lemma_key_step(v0, len, key.bit_pattern, bit);
            assert(((kp << 1u16) | (if bit { 1u16 } else { 0u16 })) == ((kp as int * 2) % 0x1_0000 + if bit { 1int } else { 0int }) as u16) by (bit_vector);
        }
        let pattern = (kp << 1u16) | (if bit { 1u16 } else { 0u16 });
        let count = key.bit_count.wrapping_add(1);
        key = TreeEntry { bit_pattern: pattern, bit_count: count };
        let ghost prev = len;
        proof {
            len = len + 1;
        }
        match max {
            Some(m) => {
                assert(count as nat == len);
                if count > m {
                    assert(huff_search(tree@, v0, l0, prev, max, not_found) == (Err::<usize, PngError>(not_found), len));
                    return Err(not_found);
                }
            },
            None => {},
        }
        assert(huff_search(tree@, v0, l0, prev, max, not_found) == huff_search(tree@, v0, l0, len, max, not_found));
    }
}

proof fn msb_bound(v: nat, n: nat)
    ensures
        msb_value(v, n) < pow2(n),
    decreases n,
{
    if n > 0 {
        msb_bound(v, (n - 1) as nat);
        lemma_pow2_adds((n - 1) as nat, 1);
        lemma2_to64();
    } else {
        lemma2_to64();
    }
}

/// The alphabet that the code lengths of the other two are written in.
#[derive(Debug, Clone, PartialEq, Eq)]
pub struct CodeLengthAlphabet {
    /// One entry per code length symbol (19 of them).
    pub tree: Vec<TreeEntry>,
    /// The shortest code length in use (at most 15).
    pub min_bit_count: u16,
    /// The longest code length in use.
    pub max_bit_count: u16,
}

/// The alphabet of literal bytes, the end of block, and match lengths.
#[derive(Debug, Clone, PartialEq, Eq)]
pub struct LitLenAlphabet {
    /// One entry per literal/length symbol.
    pub tree: Vec<TreeEntry>,
    /// The shortest code length in use (at most 15).
    pub min_bit_count: u16,
    /// The longest code length in use.
    pub max_bit_count: u16,
}

/// The alphabet of match distances.
#[derive(Debug, Clone, PartialEq, Eq)]
pub struct DistAlphabet {
    /// One entry per distance symbol (30 of them).
    pub tree: Vec<TreeEntry>,
    /// The shortest code length in use (at most 15).
    pub min_bit_count: u16,
    /// The longest code length in use.
    pub max_bit_count: u16,
}

/// What refreshing an alphabet leaves in it: the codes filled in as
/// `codes_filled` says, and when that worked, the code length bounds.
pub open spec fn refreshed(old_tree: Seq<TreeEntry>, tree: Seq<TreeEntry>, min: u16, max: u16, r: PngResult<()>) -> bool {
    &&& codes_filled(old_tree, tree, r)
    &&& r is Ok ==> min == min_bits(old_tree, old_tree.len() as int) && max == max_bits(old_tree, old_tree.len() as int)
}

proof fn lemma_bits_unchanged(a: Seq<TreeEntry>, b: Seq<TreeEntry>, r: PngResult<()>, upto: int)
    requires
        codes_filled(a, b, r),
        r is Ok,
        0 <= upto <= a.len(),
    ensures
        min_bits(b, upto) == min_bits(a, upto),
        max_bits(b, upto) == max_bits(a, upto),
        min_bits(a, upto) <= 15,
    decreases upto,
{
    if upto > 0 {
        lemma_bits_unchanged(a, b, r, upto - 1);
        assert(b[upto - 1] == crate::png::inflate::tree_entry::filled(a, upto - 1));
    }
}

impl CodeLengthAlphabet {
    /// The number of symbols.
    pub const COUNT: usize = 19;

    /// An alphabet whose entries all have no code.
    pub fn new() -> (a: Self)
        ensures
            a.tree@.len() == 19,
            forall|i: int| 0 <= i < 19 ==> a.tree@[i] == (TreeEntry { bit_pattern: 0, bit_count: 0 }),
            a.min_bit_count == 0,
            a.max_bit_count == 0,
    {
        let tree = vec![TreeEntry { bit_pattern: 0, bit_count: 0 }; 19];
        CodeLengthAlphabet { tree, min_bit_count: 0, max_bit_count: 0 }
    }

    /// Fills in the codes from the code lengths, and the code length bounds.
    pub fn refresh(&mut self) -> (r: PngResult<()>)
        requires
            old(self).tree@.len() > 0,
        ensures
            refreshed(old(self).tree@, final(self).tree@, final(self).min_bit_count, final(self).max_bit_count, r),
            r is Err ==> final(self).min_bit_count == old(self).min_bit_count && final(self).max_bit_count == old(self).max_bit_count,
    {
        let ghost t0 = self.tree@;
        match TreeEntry::fill_in_the_codes(self.tree.as_mut_slice()) {
            Ok(()) => {},
            Err(e) => {
                return Err(e);
            },
        }
        let (lo, hi) = min_max_bit_counts(self.tree.as_slice());
        proof {
            lemma_bits_unchanged(t0, self.tree@, Ok(()), t0.len() as int);
        }
        self.min_bit_count = lo;
        self.max_bit_count = hi;
        Ok(())
    }

    /// Decodes one code length symbol: reads `min_bit_count` bits, then one
    /// more at a time, until the code read is in the tree.
    pub fn pull_and_match(&self, bi: &mut BitSource) -> (r: PngResult<usize>)
        requires
            old(bi).wf(),
            1 <= self.min_bit_count <= 15,
        ensures
            final(bi).wf(),
            final(bi).bit_len() <= old(bi).bit_len(),
            r == huff_search(self.tree@, old(bi).bits_value(), old(bi).bit_len(), self.min_bit_count as nat, None, PngError::UnexpectedEndOfInput).0,
            r is Ok ==> {
                let used = huff_search(self.tree@, old(bi).bits_value(), old(bi).bit_len(), self.min_bit_count as nat, None, PngError::UnexpectedEndOfInput).1;
                &&& final(bi).bits_value() == old(bi).bits_value() / pow2(used)
                &&& final(bi).bit_len() == old(bi).bit_len() - used
            },
    {
        pull_and_match_in(self.tree.as_slice(), self.min_bit_count, None, PngError::UnexpectedEndOfInput, bi)
    }
}

/// The code lengths for a literal/length or distance tree, as a dynamic
/// block header gives them: decoding code length symbols from the bits `v`
/// (of which there are `avail`) with the code length tree `cl`, until `want`
/// lengths are known. `cap` is the room there is for lengths; `lens` the
/// lengths found so far. Gives the outcome and the lengths found.
pub open spec fn code_lengths(cl: Seq<TreeEntry>, min: u16, v: nat, avail: nat, want: nat, cap: nat, lens: Seq<u16>) -> (PngResult<()>, Seq<u16>)
    decreases avail,
{
    if lens.len() >= want {
        (Ok(()), lens)
    } else {
        let (r, used) = huff_search(cl, v, avail, min as nat, None, PngError::UnexpectedEndOfInput);
        match r {
            Err(e) => (Err(e), lens),
            Ok(sym) => {
                if used < 1 || used > avail {
                    (Err(PngError::UnexpectedEndOfInput), lens)
                } else {
                    let v1 = v / pow2(used);
                    let a1 = (avail - used) as nat;
                    if sym <= 15 {
                        if lens.len() >= cap {
                            (Err(PngError::BadDynamicHuffmanTreeData), lens)
                        } else {
                            code_lengths(cl, min, v1, a1, want, cap, lens.push(sym as u16))
                        }
                    } else {
                        let (extra, base): (nat, nat) = if sym == 16 { (2, 3) } else if sym == 17 { (3, 3) } else { (7, 11) };
                        let rep = base + v1 % pow2(extra);
                        if sym == 16 && lens.len() == 0 {
                            (Err(PngError::BadDynamicHuffmanTreeData), lens)
                        } else if a1 < extra {
                            (Err(PngError::UnexpectedEndOfInput), lens)
                        } else if lens.len() + rep > cap {
                            (Err(PngError::BadDynamicHuffmanTreeData), lens)
                        } else {
                            let fill: u16 = if sym == 16 { lens.last() } else { 0 };
                            code_lengths(cl, min, v1 / pow2(extra), (a1 - extra) as nat, want, cap, lens + Seq::new(rep, |k: int| fill))
                        }
                    }
                }
            },
        }
    }
}

/// The bits left (their value and how many) once [code_lengths] has found
/// its lengths; where it stops early, the bits it stopped at.
pub open spec fn code_lengths_bits(cl: Seq<TreeEntry>, min: u16, v: nat, avail: nat, want: nat, cap: nat, lens: Seq<u16>) -> (nat, nat)
    decreases avail,
{
    if lens.len() >= want {
        (v, avail)
    } else {
        let (r, used) = huff_search(cl, v, avail, min as nat, None, PngError::UnexpectedEndOfInput);
        match r {
            Err(e) => (v, avail),
            Ok(sym) => {
                if used < 1 || used > avail {
                    (v, avail)
                } else {
                    let v1 = v / pow2(used);
                    let a1 = (avail - used) as nat;
                    if sym <= 15 {
                        if lens.len() >= cap {
                            (v, avail)
                        } else {
                            code_lengths_bits(cl, min, v1, a1, want, cap, lens.push(sym as u16))
                        }
                    } else {
                        let (extra, base): (nat, nat) = if sym == 16 { (2, 3) } else if sym == 17 { (3, 3) } else { (7, 11) };
                        let rep = base + v1 % pow2(extra);
                        if sym == 16 && lens.len() == 0 {
                            (v, avail)
                        } else if a1 < extra {
                            (v, avail)
                        } else if lens.len() + rep > cap {
                            (v, avail)
                        } else {
                            let fill: u16 = if sym == 16 { lens.last() } else { 0 };
                            code_lengths_bits(cl, min, v1 / pow2(extra), (a1 - extra) as nat, want, cap, lens + Seq::new(rep, |k: int| fill))
                        }
                    }
                }
            },
        }
    }
}

/// `new` is `old` with the code lengths of its first `lens.len()` entries
/// replaced by `lens`.
pub open spec fn lengths_written(old: Seq<TreeEntry>, new: Seq<TreeEntry>, lens: Seq<u16>) -> bool {
    &&& new.len() == old.len()
    &&& lens.len() <= old.len()
    &&& forall|j: int| 0 <= j < old.len() ==> (#[trigger] new[j]).bit_pattern == old[j].bit_pattern
    &&& forall|j: int| 0 <= j < lens.len() ==> (#[trigger] new[j]).bit_count == lens[j]
    &&& forall|j: int| lens.len() <= j < old.len() ==> (#[trigger] new[j]).bit_count == old[j].bit_count
}

impl CodeLengthAlphabet {
    /// Reads `element_count` code lengths for `tree` from `bi`: symbols 0 to
    /// 15 are lengths, 16 repeats the previous length 3 to 6 times, 17 and 18
    /// give 3 to 10 and 11 to 138 zero lengths. A repeat that would run past
    /// the end of `tree` is reported as bad tree data.
    pub fn fill_a_tree(&self, element_count: usize, tree: &mut [TreeEntry], bi: &mut BitSource) -> (r: PngResult<()>)
        requires
            old(bi).wf(),
            self.tree@.len() == 19,
            1 <= self.min_bit_count <= 15,
            element_count <= old(tree)@.len(),
        ensures
            final(bi).wf(),
            final(bi).bit_len() <= old(bi).bit_len(),
            forall|j: int| 0 <= j < old(tree)@.len() && old(tree)@[j].bit_count <= 15 ==> (#[trigger] final(tree)@[j]).bit_count <= 15,
            ({
                let (res, lens) = code_lengths(self.tree@, self.min_bit_count, old(bi).bits_value(), old(bi).bit_len(),
                    element_count as nat, old(tree)@.len() as nat, Seq::empty());
                &&& r == res
                &&& lengths_written(old(tree)@, final(tree)@, lens)
            }),
            r is Ok ==> (final(bi).bits_value(), final(bi).bit_len()) == code_lengths_bits(self.tree@, self.min_bit_count,
                old(bi).bits_value(), old(bi).bit_len(), element_count as nat, old(tree)@.len() as nat, Seq::empty()),
    {
        let ghost cl = self.tree@;
        let ghost min = self.min_bit_count;
        let ghost t0 = tree@;
        let ghost cap = tree@.len() as nat;
        let ghost mut lens: Seq<u16> = Seq::empty();
        let mut acquired: usize = 0;
        let ghost goal = code_lengths(cl, min, bi.bits_value(), bi.bit_len(), element_count as nat, cap, Seq::empty());
        let ghost goal_bits = code_lengths_bits(cl, min, bi.bits_value(), bi.bit_len(), element_count as nat, cap, Seq::empty());
        while acquired < element_count
            invariant
                bi.wf(),
                cl == self.tree@,
                cl.len() == 19,
                min == self.min_bit_count,
                1 <= min <= 15,
                element_count <= cap,
                cap == tree@.len(),
                acquired == lens.len(),
                lengths_written(t0, tree@, lens),
                goal == code_lengths(cl, min, bi.bits_value(), bi.bit_len(), element_count as nat, cap, lens),
                goal_bits == code_lengths_bits(cl, min, bi.bits_value(), bi.bit_len(), element_count as nat, cap, lens),
                goal_bits == code_lengths_bits(self.tree@, self.min_bit_count, old(bi).bits_value(), old(bi).bit_len(),
                    element_count as nat, old(tree)@.len() as nat, Seq::empty()),
                t0 == old(tree)@,
                goal == code_lengths(self.tree@, self.min_bit_count, old(bi).bits_value(), old(bi).bit_len(),
                    element_count as nat, old(tree)@.len() as nat, Seq::empty()),
                bi.bit_len() <= old(bi).bit_len(),
                forall|j: int| 0 <= j < t0.len() && t0[j].bit_count <= 15 ==> (#[trigger] tree@[j]).bit_count <= 15,
                forall|j: int| 0 <= j < lens.len() ==> (#[trigger] tree@[j]).bit_count <= 15,
            decreases bi.bit_len(),
        {
            let ghost v = bi.bits_value();
            let ghost avail = bi.bit_len();
            let sym = match self.pull_and_match(bi) {
                Ok(s) => s,
                Err(e) => {
                    assert(code_lengths(cl, min, v, avail, element_count as nat, cap, lens) == (Err::<(), PngError>(e), lens));
                    return Err(e);
                },
            };
            let ghost used = huff_search(cl, v, avail, min as nat, None, PngError::UnexpectedEndOfInput).1;
            proof {
                lemma_search_uses_bits(cl, v, avail, min as nat, None, PngError::UnexpectedEndOfInput);
                lemma_found_in_tree(cl, v, avail, min as nat, None, PngError::UnexpectedEndOfInput);
            }
            if sym <= 15 {
                let old_entry = tree[acquired];
                tree[acquired] = TreeEntry { bit_pattern: old_entry.bit_pattern, bit_count: sym as u16 };
                acquired = acquired + 1;
                proof {
                    lens = lens.push(sym as u16);
                }
            } else {
                let (extra, base): (u32, usize) = if sym == 16 { (2, 3) } else if sym == 17 { (3, 3) } else { (7, 11) };
                if sym == 16 && acquired == 0 {
                    return Err(PngError::BadDynamicHuffmanTreeData);
                }
                let ghost v1 = bi.bits_value();
                let bits = match bi.next_bits_lsb(extra) {
                    Ok(b) => b,
                    Err(e) => {
                        assert(code_lengths(cl, min, v, avail, element_count as nat, cap, lens) == (Err::<(), PngError>(e), lens));
                        return Err(e);
                    },
                };
                proof {
                    lemma2_to64();
                }
                let repeat_count = base + bits;
                if repeat_count > tree.len() - acquired {
                    return Err(PngError::BadDynamicHuffmanTreeData);
                }
                let fill: u16 = if sym == 16 { tree[acquired - 1].bit_count } else { 0 };
                let ghost lens0 = lens;
                let ghost tree0 = tree@;
                assert forall|j: int| 0 <= j < lens0.len() implies lens0[j] <= 15 by {
                    assert(tree@[j].bit_count == lens0[j]);
                }
                let stop = acquired + repeat_count;
                while acquired < stop
                    invariant
                        lens0.len() <= acquired <= stop <= cap,
                        cap == tree@.len(),
                        tree@.len() == t0.len(),
                        lengths_written(t0, tree0, lens0),
                        forall|j: int| 0 <= j < cap ==> (#[trigger] tree@[j]).bit_pattern == t0[j].bit_pattern,
                        forall|j: int| 0 <= j < lens0.len() ==> (#[trigger] tree@[j]).bit_count == lens0[j],
                        forall|j: int| lens0.len() <= j < acquired ==> (#[trigger] tree@[j]).bit_count == fill,
                        forall|j: int| acquired <= j < cap ==> (#[trigger] tree@[j]).bit_count == t0[j].bit_count,
                        fill <= 15,
                        forall|j: int| 0 <= j < lens0.len() ==> lens0[j] <= 15,
                    decreases stop - acquired,
                {
                    let old_entry = tree[acquired];
                    tree[acquired] = TreeEntry { bit_pattern: old_entry.bit_pattern, bit_count: fill };
                    acquired = acquired + 1;
                }
                proof {
                    lens = lens0 + Seq::new(repeat_count as nat, |k: int| fill);
                    assert(lengths_written(t0, tree@, lens));
                }
            }
        }
        Ok(())
    }
}

/// A symbol found by `huff_search` used at least the bits it started with,
/// and no more than there were.
pub proof fn lemma_search_uses_bits(t: Seq<TreeEntry>, v: nat, avail: nat, len: nat, max: Option<u16>, nf: PngError)
    ensures
        huff_search(t, v, avail, len, max, nf).0 is Ok ==> len <= huff_search(t, v, avail, len, max, nf).1 <= avail,
    decreases avail - len,
{
    if len <= avail {
        match find_from(t, key_at(v, len), 0) {
            Some(p) => {},
            None => {
                if len + 1 <= avail && !(max is Some && len + 1 > max->0) {
                    lemma_search_uses_bits(t, v, avail, len + 1, max, nf);
                }
            },
        }
    }
}

proof fn lemma_find_from_in_range(t: Seq<TreeEntry>, k: TreeEntry, i: int)
    ensures
        find_from(t, k, i) matches Some(p) ==> 0 <= p < t.len() && t[p] == k,
    decreases t.len() - i,
{
    if 0 <= i < t.len() && t[i] != k {
        lemma_find_from_in_range(t, k, i + 1);
    }
}

/// A symbol found by `huff_search` is an index of the tree.
pub proof fn lemma_found_in_tree(t: Seq<TreeEntry>, v: nat, avail: nat, len: nat, max: Option<u16>, nf: PngError)
    ensures
        huff_search(t, v, avail, len, max, nf).0 matches Ok(p) ==> p < t.len(),
    decreases avail - len,
{
    if len <= avail {
        lemma_find_from_in_range(t, key_at(v, len), 0);
        match find_from(t, key_at(v, len), 0) {
            Some(p) => {},
            None => {
                if len + 1 <= avail && !(max is Some && len + 1 > max->0) {
                    lemma_found_in_tree(t, v, avail, len + 1, max, nf);
                }
            },
        }
    }
}

/// The code length bounds of any tree: the minimum is 1 to 15, and the
/// maximum is at most 15 when every code length is.
pub proof fn lemma_bit_bounds(t: Seq<TreeEntry>, upto: int)
    requires
        0 <= upto <= t.len(),
    ensures
        1 <= min_bits(t, upto) <= 15,
        (forall|j: int| 0 <= j < upto ==> (#[trigger] t[j]).bit_count <= 15) ==> max_bits(t, upto) <= 15,
    decreases upto,
{
    if upto > 0 {
        lemma_bit_bounds(t, upto - 1);
    }
}

impl LitLenAlphabet {
    /// The number of symbols of a dynamic block's alphabet.
    pub const COUNT: usize = 286;

    /// An alphabet of `COUNT` entries that all have no code.
    pub fn new() -> (a: Self)
        ensures
            a.tree@.len() == 286,
            forall|i: int| 0 <= i < 286 ==> a.tree@[i] == (TreeEntry { bit_pattern: 0, bit_count: 0 }),
            a.min_bit_count == 0,
            a.max_bit_count == 0,
    {
        let tree = vec![TreeEntry { bit_pattern: 0, bit_count: 0 }; 286];
        LitLenAlphabet { tree, min_bit_count: 0, max_bit_count: 0 }
    }

    /// Fills in the codes from the code lengths, and the code length bounds.
    /// A failure to fill in the codes is not reported.
    pub fn refresh(&mut self)
        requires
            old(self).tree@.len() > 0,
        ensures
            exists|r: PngResult<()>| codes_filled(old(self).tree@, final(self).tree@, r),
            final(self).min_bit_count == min_bits(old(self).tree@, old(self).tree@.len() as int),
            final(self).max_bit_count == max_bits(old(self).tree@, old(self).tree@.len() as int),
    {
        let ghost t0 = self.tree@;
        let r = TreeEntry::fill_in_the_codes(self.tree.as_mut_slice());
        let (lo, hi) = min_max_bit_counts(self.tree.as_slice());
        proof {
            lemma_counts_kept(t0, self.tree@, r, t0.len() as int);
        }
        self.min_bit_count = lo;
        self.max_bit_count = hi;
        assert(codes_filled(t0, self.tree@, r));
    }

    /// Decodes one literal/length symbol: reads `min_bit_count` bits, then one
    /// more at a time until the code read is in the tree, failing once more
    /// than `max_bit_count` bits would be needed.
    pub fn pull_and_match(&self, bi: &mut BitSource) -> (r: PngResult<usize>)
        requires
            old(bi).wf(),
            1 <= self.min_bit_count <= 15,
            self.max_bit_count <= 15,
        ensures
            final(bi).wf(),
            final(bi).bit_len() <= old(bi).bit_len(),
            r == huff_search(self.tree@, old(bi).bits_value(), old(bi).bit_len(), self.min_bit_count as nat, Some(self.max_bit_count), PngError::CouldNotFindLitLenSymbol).0,
            r is Ok ==> {
                let used = huff_search(self.tree@, old(bi).bits_value(), old(bi).bit_len(), self.min_bit_count as nat, Some(self.max_bit_count), PngError::CouldNotFindLitLenSymbol).1;
                &&& final(bi).bits_value() == old(bi).bits_value() / pow2(used)
                &&& final(bi).bit_len() == old(bi).bit_len() - used
            },
    {
        pull_and_match_in(self.tree.as_slice(), self.min_bit_count, Some(self.max_bit_count), PngError::CouldNotFindLitLenSymbol, bi)
    }
}

/// The code lengths of a tree are the same whether or not its codes could be
/// filled in.
proof fn lemma_counts_kept(a: Seq<TreeEntry>, b: Seq<TreeEntry>, r: PngResult<()>, upto: int)
    requires
        codes_filled(a, b, r),
        0 <= upto <= a.len(),
    ensures
        min_bits(b, upto) == min_bits(a, upto),
        max_bits(b, upto) == max_bits(a, upto),
    decreases upto,
{
    if upto > 0 {
        lemma_counts_kept(a, b, r, upto - 1);
        let i = upto - 1;
        if r is Ok {
            assert(b[i] == crate::png::inflate::tree_entry::filled(a, i));
        } else {
            let i0 = choose|i0: int| {
                &&& 0 <= i0 < a.len()
                &&& !crate::png::inflate::tree_entry::code_fits(a, i0)
                &&& forall|j: int| 0 <= j < i0 ==> crate::png::inflate::tree_entry::code_fits(a, j)
                &&& forall|j: int| 0 <= j < i0 ==> #[trigger] b[j] == crate::png::inflate::tree_entry::filled(a, j)
                &&& forall|j: int| i0 <= j < a.len() ==> #[trigger] b[j] == a[j]
            };
            if i < i0 {
                assert(b[i] == crate::png::inflate::tree_entry::filled(a, i));
            } else {
                assert(b[i] == a[i]);
            }
        }
    }
}

impl DistAlphabet {
    /// The number of symbols.
    pub const COUNT: usize = 30;

    /// An alphabet whose entries all have no code.
    pub fn new() -> (a: Self)
        ensures
            a.tree@.len() == 30,
            forall|i: int| 0 <= i < 30 ==> a.tree@[i] == (TreeEntry { bit_pattern: 0, bit_count: 0 }),
            a.min_bit_count == 0,
            a.max_bit_count == 0,
    {
        let tree = vec![TreeEntry { bit_pattern: 0, bit_count: 0 }; 30];
        DistAlphabet { tree, min_bit_count: 0, max_bit_count: 0 }
    }

    /// Fills in the codes from the code lengths, and the code length bounds.
    pub fn refresh(&mut self) -> (r: PngResult<()>)
        requires
            old(self).tree@.len() > 0,
        ensures
            refreshed(old(self).tree@, final(self).tree@, final(self).min_bit_count, final(self).max_bit_count, r),
            r is Err ==> final(self).min_bit_count == old(self).min_bit_count && final(self).max_bit_count == old(self).max_bit_count,
    {
        let ghost t0 = self.tree@;
        match TreeEntry::fill_in_the_codes(self.tree.as_mut_slice()) {
            Ok(()) => {},
            Err(e) => {
                return Err(e);
            },
        }
        let (lo, hi) = min_max_bit_counts(self.tree.as_slice());
        proof {
            lemma_bits_unchanged(t0, self.tree@, Ok(()), t0.len() as int);
        }
        self.min_bit_count = lo;
        self.max_bit_count = hi;
        Ok(())
    }

    /// Decodes one distance symbol: reads `min_bit_count` bits, then one
    /// more at a time until the code read is in the tree, failing once more
    /// than `max_bit_count` bits would be needed.
    pub fn pull_and_match(&self, bi: &mut BitSource) -> (r: PngResult<usize>)
        requires
            old(bi).wf(),
            1 <= self.min_bit_count <= 15,
            self.max_bit_count <= 15,
        ensures
            final(bi).wf(),
            final(bi).bit_len() <= old(bi).bit_len(),
            r == huff_search(self.tree@, old(bi).bits_value(), old(bi).bit_len(), self.min_bit_count as nat, Some(self.max_bit_count), PngError::CouldNotFindDistSymbol).0,
            r is Ok ==> {
                let used = huff_search(self.tree@, old(bi).bits_value(), old(bi).bit_len(), self.min_bit_count as nat, Some(self.max_bit_count), PngError::CouldNotFindDistSymbol).1;
                &&& final(bi).bits_value() == old(bi).bits_value() / pow2(used)
                &&& final(bi).bit_len() == old(bi).bit_len() - used
            },
    {
        pull_and_match_in(self.tree.as_slice(), self.min_bit_count, Some(self.max_bit_count), PngError::CouldNotFindDistSymbol, bi)
    }
}

} // verus!
