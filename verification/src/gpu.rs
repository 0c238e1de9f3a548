//! Helpers for the CUDA backend's C interface.
use vstd::prelude::*;

verus! {

/// Length of the NUL-terminated message in an error buffer: the index of
/// the first zero byte, or the whole buffer where there is none.
pub fn message_end(buffer: &[u8]) -> (end: usize)
    ensures
        end <= buffer@.len(),
        forall|i: int| 0 <= i < end ==> buffer@[i] != 0,
        end < buffer@.len() ==> buffer@[end as int] == 0,
{
    let mut i: usize = 0;
    while i < buffer.len()
        invariant
            i <= buffer@.len(),
            forall|k: int| 0 <= k < i ==> buffer@[k] != 0,
        decreases buffer@.len() - i,
    {
        if buffer[i] == 0 {
            return i;
        }
        i = i + 1;
    }
    i
}

} // verus!
