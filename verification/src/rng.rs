use vstd::prelude::*;

verus! {

/// The source of the random draws the motion primitives consume.
///
/// The simulation owns no ambient generator: the sweep driver takes any
/// implementation of this trait, so a caller can hand it the process-wide
/// generator for play or a deterministic stub for tests.  Nothing beyond
/// the bound below is known about a draw, so everything proved about the
/// simulation holds for every possible sequence of draws.
pub trait RandomSource {
    /// A draw from `0..n`.
    fn next_below(&mut self, n: u32) -> (r: u32)
        requires
            n >= 1,
        ensures
            r < n,
    ;
}

/// A [`RandomSource`] backed by the process-wide thread-local generator.
pub struct ThreadRandom {}

impl ThreadRandom {
    pub fn new() -> ThreadRandom {
        ThreadRandom {}
    }
}

/// Relies on rand::thread_rng and rand::Rng::gen_range: sampling `0..n`
/// panics only on an empty range, which `n >= 1` rules out, and returns a
/// value of the range, hence below `n`.
#[verifier::external_body]
fn draw_below(n: u32) -> (r: u32)
    requires
        n >= 1,
    ensures
        r < n,
{
    rand::Rng::gen_range(&mut rand::thread_rng(), 0..n)
}

impl RandomSource for ThreadRandom {
    fn next_below(&mut self, n: u32) -> (r: u32) {
        draw_below(n)
    }
}

} // verus!
