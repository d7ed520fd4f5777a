use vstd::prelude::*;

use crate::caller::{draw32, PrintfExt, SeedDraw, SeedLog, SeedSource};
use crate::output::PrngOutput;
use crate::prng::{Plugin, Prng};

verus! {

/// The multiplier of the 32-bit LCG.
pub const LCG32_MUL: u32 = 1664525u32;

/// The increment of the 32-bit LCG.
pub const LCG32_INC: u32 = 1013904223u32;

/// One step of the 32-bit LCG: `x <- 1664525 * x + 1013904223 mod 2^32`.
pub open spec fn lcg32_step(x: u32) -> u32 {
    ((LCG32_MUL as nat * x as nat + LCG32_INC as nat) % 0x1_0000_0000) as u32
}

/// The 32-bit linear congruential generator; it returns its new state.
pub struct Lcg32State {
    pub x: u32,
}

impl Lcg32State {
    /// A generator whose state is one 32-bit seed drawn from `intf` and
    /// recorded in `log`; `None` when the seed is refused. Exactly one seed
    /// is drawn.
    pub fn new_recorded<C: SeedSource>(intf: &C, log: &mut SeedLog) -> (r: Option<Self>)
        ensures
            r matches Some(g) ==> final(log).draws() == old(log).draws().push(
                SeedDraw::Bits32(Some(g.x)),
            ),
            r is None ==> final(log).draws() == old(log).draws().push(SeedDraw::Bits32(None)),
            r matches Some(g) ==> call_ensures(C::seed32, (intf,), Some(g.x)),
            r is None ==> call_ensures(C::seed32, (intf,), None::<u32>),
    {
        match draw32(intf, log) {
            Some(seed) => Some(Lcg32State { x: seed }),
            None => None,
        }
    }
}

impl Prng for Lcg32State {
    type Output = u32;

    proof fn lemma_output_word(self) {
        let v: u32 = lcg32_step(self.x);
        assert(v.spec_widen() == self.spec_output());
    }

    open spec fn spec_step(self) -> Self {
        Lcg32State { x: lcg32_step(self.x) }
    }

    open spec fn spec_output(self) -> u64 {
        lcg32_step(self.x) as u64
    }

    fn next(&mut self) -> (r: u32) {
        let m = self.x.wrapping_mul(LCG32_MUL);
        proof {
            vstd::arithmetic::div_mod::lemma_small_mod(LCG32_INC as nat, 0x1_0000_0000);
            vstd::arithmetic::div_mod::lemma_mod_twice(
                (self.x as nat * LCG32_MUL as nat + LCG32_INC as nat) as int,
                0x1_0000_0000,
            );
            assert(m as nat == (self.x as nat * LCG32_MUL as nat) % 0x1_0000_0000);
            let sum = m as nat + LCG32_INC as nat;
            if sum >= 0x1_0000_0000 {
                vstd::arithmetic::div_mod::lemma_fundamental_div_mod_converse(sum as int,
                    0x1_0000_0000, 1, sum - 0x1_0000_0000);
            } else {
                vstd::arithmetic::div_mod::lemma_small_mod(sum, 0x1_0000_0000);
            }
            vstd::arithmetic::div_mod::lemma_add_mod_noop(
                (self.x as nat * LCG32_MUL as nat) as int,
                LCG32_INC as int,
                0x1_0000_0000,
            );
        }
        self.x = m.wrapping_add(LCG32_INC);
        self.x
    }

    fn name() -> (r: &'static str)
        ensures
            r@ == "LCG32"@,
    {
        "LCG32"
    }

    fn description() -> (r: &'static str)
        ensures
            r@ == "32-bit LCG"@,
    {
        "32-bit LCG"
    }
}

impl<C: SeedSource + PrintfExt> Plugin<C> for Lcg32State {
    fn new(intf: &C) -> (r: Option<Self>)
        ensures
            r matches Some(g) ==> call_ensures(C::seed32, (intf,), Some(g.x)),
            r is None ==> call_ensures(C::seed32, (intf,), None::<u32>),
    {
        let mut log = SeedLog::new();
        Lcg32State::new_recorded(intf, &mut log)
    }
}

} // verus!
