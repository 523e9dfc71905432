//! The fallback of a demo whose only variant is a small well-behaved
//! function that proves safe.
use vstd::prelude::*;

verus! {

/// The Rust fallback: returns 0.
pub fn safe_fn_rust() -> (r: usize)
    ensures
        r == 0,
{
    0
}

} // verus!
