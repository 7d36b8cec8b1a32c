//! The identifier allocator: hands out asset ids in increasing order from a
//! nonce that starts at zero.

use vstd::prelude::*;
use crate::balances::AssetId;

verus! {

/// The nonce after one allocation: one more, clamped at the largest id.
pub open spec fn next_nonce(n: AssetId) -> AssetId {
    if n < u32::MAX { (n + 1) as AssetId } else { u32::MAX }
}

/// Returns the current nonce and advances it by one. At the largest id the
/// nonce stays put, so that id is handed out again rather than wrapping to
/// zero.
pub fn allocate(nonce: &mut AssetId) -> (r: AssetId)
    ensures
        r == *old(nonce),
        *final(nonce) == next_nonce(*old(nonce)),
{
    let id = *nonce;
    *nonce = id.saturating_add(1);
    id
}

} // verus!
