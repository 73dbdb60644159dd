//! Pluggable sample generation: what replaces a censored range.

use vstd::prelude::*;

verus! {

/// A noise generator: produces the samples written over a censored
/// range.  What it produces is pinned by its own `gen_spec`, and is
/// always exactly one sample per position of the range.  By default a
/// generator is specified to produce silence; an implementation that
/// produces anything else should override `gen_spec` accordingly.
pub trait Generator: Sized {
    /// The samples this generator produces for `[start, end)` at the
    /// given sample rate.
    open spec fn gen_spec(&self, start: int, end: int, sample_rate: u32) -> Seq<i16> {
        if start <= end {
            Seq::new((end - start) as nat, |i: int| 0i16)
        } else {
            Seq::empty()
        }
    }

    /// Produce the samples for `[start, end)`: exactly what
    /// `gen_spec` says, one sample per position of the range.
    fn generate(&self, start: usize, end: usize, sample_rate: u32) -> (r: Vec<i16>)
        requires
            start <= end,
        ensures
            r@ == self.gen_spec(start as int, end as int, sample_rate),
            r@.len() == end - start,
    ;
}

/// The generator that produces silence.
pub struct Silence(());

impl Silence {
    /// Construct a new generator that generates silence.
    pub fn new() -> (r: Self) {
        Silence(())
    }
}

impl Generator for Silence {
    fn generate(&self, start: usize, end: usize, sample_rate: u32) -> (r: Vec<i16>) {
        let n = end - start;
        let mut out: Vec<i16> = Vec::new();
        let mut i: usize = 0;
        #[verifier::loop_isolation(false)]
        while i < n
            invariant
                i <= n,
                out@ =~= Seq::new(i as nat, |m: int| 0i16),
            decreases n - i,
        {
            out.push(0i16);
            proof {
                assert(out@ =~= Seq::new((i + 1) as nat, |m: int| 0i16));
            }
            i = i + 1;
        }
        out
    }
}

} // verus!
