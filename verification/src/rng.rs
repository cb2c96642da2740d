//! The one door to the random number generator. Every random decision in
//! the crate draws through `rand_below`, so the rest of the generation and
//! AI logic is verified for every value the generator can hand back.

use rand::Rng;
use vstd::prelude::*;

verus! {

/// Relies on rand::Rng::gen_range over `0..n` on the thread-local
/// generator: it returns a value of that range and panics only when the
/// range is empty, which the precondition rules out.
#[verifier::external_body]
pub(crate) fn rand_below(n: u64) -> (r: u64)
    requires
        n > 0,
    ensures
        r < n,
{
    rand::thread_rng().gen_range(0..n)
}

/// A uniform draw from the half-open range `[lo, hi)`.
pub(crate) fn rand_range_i32(lo: i32, hi: i32) -> (r: i32)
    requires
        lo < hi,
    ensures
        lo <= r < hi,
{
    let span: u64 = (hi as i64 - lo as i64) as u64;
    let off: u64 = rand_below(span);
    (lo as i64 + off as i64) as i32
}

/// A uniform draw of an index below `n`.
pub(crate) fn rand_index(n: usize) -> (r: usize)
    requires
        n > 0,
    ensures
        r < n,
{
    rand_below(n as u64) as usize
}

} // verus!
