//! Sizes used when generating terms.
use vstd::prelude::*;

verus! {

/// The number of bytes that hold `bits` bits.
pub fn bits_to_bytes(bits: usize) -> (bytes: usize)
    requires
        bits + 7 <= usize::MAX,
    ensures
        bytes == (bits + 7) / 8,
        8 * bytes >= bits,
        8 * bytes < bits + 8,
{
    (bits + 7) / 8
}

} // verus!
