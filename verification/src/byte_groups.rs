//! Viewing bytes as a slice of fixed-size groups, without copying.
use vstd::prelude::*;

verus! {

/// Views bytes as `N` byte groups with `bytemuck::try_cast_slice`. For `u8`
/// to `[u8; N]` the cast needs no more alignment than bytes have and the
/// group size is `N`, so by the crate's source it succeeds exactly when the
/// length is a multiple of `N`, and group `i` is then bytes `N * i` to
/// `N * i + N`.
#[verifier::external_body]
pub(crate) fn cast_to_groups<const N: usize>(bytes: &[u8]) -> (r: Option<&[[u8; N]]>)
    requires
        N > 0,
    ensures
        r is Some <==> bytes@.len() % (N as nat) == 0,
        r matches Some(q) ==> q@.len() == bytes@.len() / (N as nat) && forall|i: int|
            0 <= i < q@.len() ==> #[trigger] q@[i]@ == bytes@.subrange(N * i, N * i + N),
{
    bytemuck::try_cast_slice(bytes).ok()
}

} // verus!
