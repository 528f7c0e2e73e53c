use vstd::prelude::*;

verus! {

/// The nonce of the first library where no node was asked, or where the
/// node gave no answer.
pub const DEFAULT_NONCE: u64 = 1;

/// The nonce from which the addresses of a build are derived. Where a node
/// is given (`has_endpoint`) and has answered with the sender's transaction
/// count, it is the count plus one, held at the largest nonce; in every other
/// case it is `DEFAULT_NONCE`.
pub open spec fn first_nonce(has_endpoint: bool, count: Option<u64>) -> int {
    match count {
        Some(count) if has_endpoint => if count < u64::MAX {
            count + 1
        } else {
            u64::MAX as int
        },
        _ => DEFAULT_NONCE as int,
    }
}

/// The nonce from which the addresses of a build are derived: one more than
/// the sender's transaction count where a node was asked and has answered,
/// `DEFAULT_NONCE` where none is given or the question failed.
pub fn starting_nonce(has_endpoint: bool, count: Option<u64>) -> (nonce: u64)
    ensures
        nonce == first_nonce(has_endpoint, count),
{
    if !has_endpoint {
        return DEFAULT_NONCE;
    }
    match count {
        Some(count) => if count < u64::MAX {
            count + 1
        } else {
            u64::MAX
        },
        None => DEFAULT_NONCE,
    }
}

} // verus!
