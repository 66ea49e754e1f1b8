//! Small helpers shared by the components.
use likely_stable::unlikely;
use vstd::prelude::*;

verus! {

/// The largest message, in bytes, that a server takes or sends.
pub const MESSAGE_LIMIT: usize = 20 * 1024 * 1024;

/// Whether two lists of keys are equal, element by element.
pub fn is_keys_equal(a: &[u32], b: &[u32]) -> (equal: bool)
    ensures
        equal == (a@ == b@),
{
    if unlikely(a.len() != b.len()) {
        return false;
    }
    let mut i: usize = 0;
    while i < a.len()
        invariant
            a@.len() == b@.len(),
            i <= a@.len(),
            forall|k: int| 0 <= k < i ==> a@[k] == b@[k],
        decreases a.len() - i,
    {
        if a[i] != b[i] {
            return false;
        }
        i += 1;
    }
    assert(a@ =~= b@);
    true
}

/// Whether a message of `len` bytes may be taken or sent.
pub fn within_message_limit(len: usize) -> (ok: bool)
    ensures
        ok == (len <= MESSAGE_LIMIT),
{
    len <= MESSAGE_LIMIT
}

} // verus!
