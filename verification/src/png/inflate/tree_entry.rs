//! Canonical Huffman code assignment (RFC 1951, section 3.2.2).
use vstd::prelude::*;
use vstd::arithmetic::power2::{pow2, lemma2_to64, lemma_pow2_strictly_increases};
use crate::png::png_error::{PngError, PngResult};

verus! {

/// One symbol of a Huffman alphabet: its code and the length of that code.
#[derive(Debug, Clone, Copy, PartialEq, Eq, Structural, Default)]
pub struct TreeEntry {
    /// The code, in the low `bit_count` bits.
    pub bit_pattern: u16,
    /// The code length; 0 means the symbol is not used.
    pub bit_count: u16,
}

/// How many of the first `upto` entries have a code length of `len`.
pub open spec fn count_len(t: Seq<TreeEntry>, len: u16, upto: int) -> nat
    decreases upto,
{
    if upto <= 0 {
        0
    } else {
        count_len(t, len, upto - 1) + if t[upto - 1].bit_count == len { 1nat } else { 0nat }
    }
}

/// The number of codes of length `len` (1 to 15), as a `u16` counter holds it.
pub open spec fn bl_count(t: Seq<TreeEntry>, len: int) -> nat {
    if 1 <= len <= 15 {
        count_len(t, len as u16, t.len() as int) % 0x1_0000
    } else {
        0
    }
}

/// The smallest code of length `bits`, computed with 16-bit arithmetic.
pub open spec fn first_code(t: Seq<TreeEntry>, bits: nat) -> nat
    decreases bits,
{
    if bits == 0 {
        0
    } else {
        (((first_code(t, (bits - 1) as nat) + bl_count(t, bits - 1)) % 0x1_0000) * 2) % 0x1_0000
    }
}

/// The code given to entry `i`: the first code of its length, plus the number
/// of earlier entries with that length.
pub open spec fn code_for(t: Seq<TreeEntry>, i: int) -> nat {
    first_code(t, t[i].bit_count as nat) + count_len(t, t[i].bit_count, i)
}

/// Whether entry `i` takes part in code assignment (lengths 1 to 15).
pub open spec fn takes_code(e: TreeEntry) -> bool {
    1 <= e.bit_count <= 15
}

/// Entry `i` can be given its code: it takes none, or the code fits its length.
pub open spec fn code_fits(t: Seq<TreeEntry>, i: int) -> bool {
    takes_code(t[i]) ==> code_for(t, i) < pow2(t[i].bit_count as nat)
}

/// Entry `i` once its code is filled in.
pub open spec fn filled(t: Seq<TreeEntry>, i: int) -> TreeEntry {
    if takes_code(t[i]) {
        TreeEntry { bit_pattern: code_for(t, i) as u16, bit_count: t[i].bit_count }
    } else {
        t[i]
    }
}

/// What filling in the codes of `old` does: `new` is `old` with every code
/// filled in when each fits its length; otherwise the error comes at the
/// first entry whose code doesn't fit, the entries before it filled in.
pub open spec fn codes_filled(old: Seq<TreeEntry>, new: Seq<TreeEntry>, r: PngResult<()>) -> bool {
    &&& new.len() == old.len()
    &&& (r is Ok <==> forall|i: int| 0 <= i < old.len() ==> code_fits(old, i))
    &&& r is Ok ==> forall|i: int| 0 <= i < old.len() ==> #[trigger] new[i] == filled(old, i)
    &&& r matches Err(e) ==> e == PngError::BadDynamicHuffmanTreeData && exists|i0: int| {
        &&& 0 <= i0 < old.len()
        &&& !code_fits(old, i0)
        &&& forall|j: int| 0 <= j < i0 ==> code_fits(old, j)
        &&& forall|j: int| 0 <= j < i0 ==> #[trigger] new[j] == filled(old, j)
        &&& forall|j: int| i0 <= j < old.len() ==> #[trigger] new[j] == old[j]
    }
}

impl TreeEntry {
    /// Given a list of filled in `bit_count`s, computes the `bit_pattern`s.
    ///
    /// * A `bit_count` above 15 is ignored.
    /// * A `bit_count` of 0 means that the entry doesn't take part in
    ///   `bit_pattern` generation at all.
    ///
    /// Fails when a code doesn't fit its length; the entries before that one
    /// have their codes by then, the others are untouched.
    pub fn fill_in_the_codes(tree: &mut [TreeEntry]) -> (r: PngResult<()>)
        requires
            old(tree)@.len() > 0,
        ensures
            codes_filled(old(tree)@, final(tree)@, r),
    {
        let ghost t = tree@;
        let n = tree.len();
        // 1) Count the number of codes for each code length.
        let mut bl: Vec<u16> = vec![0u16; 16];
        let mut i: usize = 0;
        while i < n
            invariant
                n == tree@.len(),
                tree@ == t,
                i <= n,
                bl@.len() == 16,
                bl[0] == 0,
                forall|len: int| 1 <= len <= 15 ==> #[trigger] bl@[len] == count_len(t, len as u16, i as int) % 0x1_0000,
            decreases n - i,
        {
            let bc = tree[i].bit_count;
            if 1 <= bc && bc <= 15 {
                let c = bl[bc as usize];
                bl.set(bc as usize, c.wrapping_add(1));
            }
            i = i + 1;
        }
        // 2) The smallest code of each length.
        let mut next_code: Vec<u16> = vec![0u16; 16];
        let mut code: u16 = 0;
        let mut bits: usize = 1;
        while bits <= 15
            invariant
                1 <= bits <= 16,
                n == t.len(),
                bl@.len() == 16,
                next_code@.len() == 16,
                bl[0] == 0,
                forall|len: int| 1 <= len <= 15 ==> #[trigger] bl@[len] == count_len(t, len as u16, n as int) % 0x1_0000,
                code == first_code(t, (bits - 1) as nat),
                forall|len: int| 1 <= len < bits ==> #[trigger] next_code@[len] == first_code(t, len as nat),
            decreases 16 - bits,
        {
            let b = bl[bits - 1];
            assert(b == bl_count(t, bits - 1));
            let s = code.wrapping_add(b);
            assert(s == (code + b) % 0x1_0000);
            assert((s << 1u16) == ((s as int * 2) % 0x1_0000) as u16) by (bit_vector);
            assert(first_code(t, bits as nat) == ((first_code(t, (bits - 1) as nat) + bl_count(t, bits - 1)) % 0x1_0000 * 2) % 0x1_0000);
            code = s << 1u16;
            next_code.set(bits, code);
            bits = bits + 1;
        }
        // 3) Consecutive codes for the entries of each length.
        let mut i: usize = 0;
        while i < n
            invariant
                n == t.len(),
                t == old(tree)@,
                tree@.len() == n,
                i <= n,
                next_code@.len() == 16,
                forall|len: int| 1 <= len <= 15 ==> #[trigger] next_code@[len] == first_code(t, len as nat) + count_len(t, len as u16, i as int),
                forall|j: int| 0 <= j < i ==> code_fits(t, j),
                forall|j: int| 0 <= j < i ==> #[trigger] tree@[j] == filled(t, j),
                forall|j: int| i <= j < n ==> #[trigger] tree@[j] == t[j],
            decreases n - i,
        {
            let te = tree[i];
            let len = te.bit_count;
            proof {
                assert forall|l: int| 1 <= l <= 15 implies #[trigger] count_len(t, l as u16, i + 1) == count_len(t, l as u16, i as int)
                    + if t[i as int].bit_count == l as u16 { 1nat } else { 0nat } by {}
            }
            if 1 <= len && len <= 15 {
                let cur = next_code[len as usize];
                proof {
                    lemma2_to64();
                    vstd::bits::lemma_u32_pow2_no_overflow(len as nat);
                    vstd::bits::lemma_u32_shl_is_mul(1u32, len as u32);
                    lemma_pow2_strictly_increases(len as nat, 16);
                }
                if (cur as u32) < (1u32 << (len as u32)) {
                    tree[i] = TreeEntry { bit_pattern: cur, bit_count: len };
                    next_code.set(len as usize, cur + 1);
                } else {
                    proof {
                        assert(!code_fits(t, i as int));
                    }
                    return Err(PngError::BadDynamicHuffmanTreeData);
                }
            }
            i = i + 1;
        }
        Ok(())
    }
}

} // verus!
