use vstd::prelude::*;

use crate::caller::{PrintfExt, SeedSource};
use crate::output::PrngOutput;

verus! {

/// A pseudorandom number generator that the framework can drive.
///
/// A generator is a state machine: each call of [`Prng::next`] moves the
/// state one step and returns one output word. `spec_step` and
/// `spec_output` say, for every state, what that step does.
pub trait Prng: Sized {
    /// `u32` or `u64`.
    type Output: PrngOutput;

    /// The state after one step from `self`.
    spec fn spec_step(self) -> Self;

    /// The output of one step from `self`, widened to `u64`.
    spec fn spec_output(self) -> u64;

    /// Every output is the widening of an output word.
    proof fn lemma_output_word(self)
        ensures
            exists|v: Self::Output| v.spec_widen() == self.spec_output(),
    ;

    /// Moves the state one step and returns the output of that step.
    fn next(&mut self) -> (r: Self::Output)
        ensures
            *final(self) == old(self).spec_step(),
            r.spec_widen() == old(self).spec_output(),
    ;

    /// The generator's name.
    fn name() -> &'static str;

    /// A short description of the generator.
    fn description() -> (r: &'static str)
        default_ensures
            r@ == ""@,
    {
        ""
    }

    /// The number of bits in each output reported to the framework; by
    /// default the width of the output word (32 or 64).
    fn bits() -> (r: u32)
        default_ensures
            r == <Self::Output as PrngOutput>::spec_bits(),
    {
        <Self::Output as PrngOutput>::bits()
    }
}

/// The part of a generator that meets the framework through its interface
/// `C`: creation from the framework's seeds, and the self-test.
pub trait Plugin<C: SeedSource + PrintfExt>: Prng {
    /// Builds a generator from the framework's seeds; `None` when the
    /// seeds it needs are not offered.
    fn new(intf: &C) -> Option<Self>;

    /// The generator's own check against reference values; `true` when it
    /// passes.
    fn self_test(intf: &C) -> (r: bool)
        default_ensures
            r,
    {
        true
    }
}

/// The state after `n` steps from `g`.
pub open spec fn iterate<G: Prng>(g: G, n: nat) -> G
    decreases n,
{
    if n == 0 {
        g
    } else {
        iterate(g.spec_step(), (n - 1) as nat)
    }
}

/// The sum of the first `n` outputs from `g`, as an unbounded integer.
pub open spec fn output_sum<G: Prng>(g: G, n: nat) -> nat
    decreases n,
{
    if n == 0 {
        0
    } else {
        g.spec_output() as nat + output_sum(g.spec_step(), (n - 1) as nat)
    }
}

/// One more step after `n` steps is `n + 1` steps, and its output adds to
/// the sum.
pub proof fn lemma_iterate_succ<G: Prng>(g: G, n: nat)
    ensures
        iterate(g, n + 1) == iterate(g, n).spec_step(),
        output_sum(g, n + 1) == output_sum(g, n) + iterate(g, n).spec_output(),
    decreases n,
{
    assert(iterate(g, n + 1) == iterate(g.spec_step(), n));
    assert(output_sum(g, n + 1) == g.spec_output() as nat + output_sum(g.spec_step(), n));
    if n > 0 {
        lemma_iterate_succ(g.spec_step(), (n - 1) as nat);
        assert((n - 1) as nat + 1 == n);
    } else {
        assert(iterate(g.spec_step(), 0) == g.spec_step());
        assert(output_sum(g.spec_step(), 0) == 0);
    }
}

/// Stepping `a + b` times is stepping `a` times, then `b` times; the sum of
/// `a + b` outputs is the sum of the first `a` and of the `b` after them.
pub proof fn lemma_iterate_add<G: Prng>(g: G, a: nat, b: nat)
    ensures
        iterate(g, a + b) == iterate(iterate(g, a), b),
        output_sum(g, a + b) == output_sum(g, a) + output_sum(iterate(g, a), b),
    decreases a,
{
    if a > 0 {
        lemma_iterate_add(g.spec_step(), (a - 1) as nat, b);
        assert((a - 1) as nat + b == (a + b - 1) as nat);
    }
}


} // verus!
