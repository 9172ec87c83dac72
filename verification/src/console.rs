//! Console output: whether a write to a console stream delivered a whole
//! string.

use vstd::prelude::*;

verus! {

/// A write of `requested` bytes to a console stream succeeded exactly when
/// the system call came back with a count equal to `requested`; a failed
/// call (`None`) or a short write is a failure.
pub fn write_complete(requested: usize, written: Option<usize>) -> (ok: bool)
    ensures
        ok <==> written == Some(requested),
{
    match written {
        Some(n) => n == requested,
        None => false,
    }
}

} // verus!
