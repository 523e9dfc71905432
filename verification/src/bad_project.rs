//! The fallback of a demo whose only variant clobbers a callee-saved
//! register, so that proving it fails.
use vstd::prelude::*;

verus! {

/// The Rust fallback: returns 0.
pub fn clobber_rbx_fallback() -> (r: usize)
    ensures
        r == 0,
{
    0
}

} // verus!
