use vstd::prelude::*;

use crate::caller::{draw128, PrintfExt, SeedDraw, SeedLog, SeedSource};
use crate::numfmt::push_hex_upper;
use crate::output::PrngOutput;
use crate::prng::{Plugin, Prng};
use vstd::string::StringExecFns;

verus! {

/// The multiplier of the 128-bit LCG.
pub const LCG128_MUL: u128 = 18000690696906969069u128;

/// The increment of the 128-bit LCG.
pub const LCG128_INC: u128 = 1u128;

/// The state of the self-test.
pub const LCG128_TEST_SEED: u128 = 1234567890u128;

/// The number of outputs the self-test draws.
pub const LCG128_TEST_ITERATIONS: u64 = 1_000_000u64;

/// The last output the self-test expects.
pub const LCG128_TEST_REFERENCE: u64 = 0x8E878929D96521D7u64;

/// 2^128.
pub open spec fn modulus128() -> nat {
    0x1_0000_0000_0000_0000 * 0x1_0000_0000_0000_0000
}

/// One step of the 128-bit LCG: `x <- 18000690696906969069 * x + 1 mod 2^128`.
pub open spec fn lcg128_step(x: u128) -> u128 {
    ((x as nat * LCG128_MUL as nat + LCG128_INC as nat) % modulus128()) as u128
}

/// The state after `n` steps from `x`.
pub open spec fn lcg128_iterate(x: u128, n: nat) -> u128
    decreases n,
{
    if n == 0 {
        x
    } else {
        lcg128_step(lcg128_iterate(x, (n - 1) as nat))
    }
}

/// The output of the generator in state `x`: its high 64 bits.
pub open spec fn lcg128_high(x: u128) -> u64 {
    (x as nat / 0x1_0000_0000_0000_0000) as u64
}

/// The 128-bit linear congruential generator; it returns the high 64 bits
/// of its new state.
pub struct Lcg128State {
    pub x: u128,
}

impl Lcg128State {
    /// One step: the state moves to [`lcg128_step`] and its high 64 bits
    /// are returned.
    pub fn advance(&mut self) -> (r: u64)
        ensures
            final(self).x == lcg128_step(old(self).x),
            r == lcg128_high(final(self).x),
    {
        let m = self.x.wrapping_mul(LCG128_MUL);
        proof {
            let sum = m as nat + LCG128_INC as nat;
            if sum >= modulus128() {
                vstd::arithmetic::div_mod::lemma_fundamental_div_mod_converse(sum as int,
                    modulus128() as int, 1, sum - modulus128());
            } else {
                vstd::arithmetic::div_mod::lemma_small_mod(sum, modulus128());
            }
            vstd::arithmetic::div_mod::lemma_add_mod_noop(
                (self.x as nat * LCG128_MUL as nat) as int,
                LCG128_INC as int,
                modulus128() as int,
            );
            vstd::arithmetic::div_mod::lemma_small_mod(LCG128_INC as nat, modulus128());
        }
        self.x = m.wrapping_add(LCG128_INC);
        let x = self.x;
        let r = (x >> 64u32) as u64;
        assert(r as nat == x as nat / 0x1_0000_0000_0000_0000) by (bit_vector)
            requires
                r == (x >> 64u32) as u64,
        ;
        r
    }

    /// Runs `n` steps and returns the last output.
    pub fn last_output(&mut self, n: u64) -> (r: u64)
        ensures
            final(self).x == lcg128_iterate(old(self).x, n as nat),
            n > 0 ==> r == lcg128_high(final(self).x),
            n == 0 ==> r == 0,
    {
        let ghost start = self.x;
        let mut u: u64 = 0;
        let mut i: u64 = 0;
        while i < n
            invariant
                i <= n,
                i == 0 ==> u == 0,
                self.x == lcg128_iterate(start, i as nat),
                i > 0 ==> u == lcg128_high(self.x),
            decreases n - i,
        {
            u = self.advance();
            i = i + 1;
        }
        u
    }

    /// A generator whose state is one 128-bit seed drawn from `intf` and
    /// recorded in `log`; `None` when the seed is refused. Exactly one
    /// 128-bit seed is drawn.
    pub fn new_recorded<C: SeedSource>(intf: &C, log: &mut SeedLog) -> (r: Option<Self>)
        ensures
            r matches Some(g) ==> final(log).draws() == old(log).draws().push(
                SeedDraw::Bits128(Some(g.x)),
            ),
            r is None ==> final(log).draws() == old(log).draws().push(SeedDraw::Bits128(None)),
            r matches Some(g) ==> call_ensures(C::seed128, (intf,), Some(g.x)),
            r is None ==> call_ensures(C::seed128, (intf,), None::<u128>),
    {
        match draw128(intf, log) {
            Some(x) => Some(Lcg128State { x }),
            None => None,
        }
    }
}

impl Prng for Lcg128State {
    type Output = u64;

    proof fn lemma_output_word(self) {
        let v: u64 = self.spec_output();
        assert(v.spec_widen() == self.spec_output());
    }

    open spec fn spec_step(self) -> Self {
        Lcg128State { x: lcg128_step(self.x) }
    }

    open spec fn spec_output(self) -> u64 {
        lcg128_high(lcg128_step(self.x))
    }

    fn next(&mut self) -> (r: u64) {
        self.advance()
    }

    fn name() -> (r: &'static str)
        ensures
            r@ == "LCG128"@,
    {
        "LCG128"
    }

    fn description() -> (r: &'static str)
        ensures
            r@ == "128-bit LCG, returns high 64 bits (using u128)"@,
    {
        "128-bit LCG, returns high 64 bits (using u128)"
    }
}

impl<C: SeedSource + PrintfExt> Plugin<C> for Lcg128State {
    fn new(intf: &C) -> (r: Option<Self>)
        ensures
            r matches Some(g) ==> call_ensures(C::seed128, (intf,), Some(g.x)),
            r is None ==> call_ensures(C::seed128, (intf,), None::<u128>),
    {
        let mut log = SeedLog::new();
        Lcg128State::new_recorded(intf, &mut log)
    }

    fn self_test(intf: &C) -> (r: bool)
        ensures
            r == (lcg128_high(lcg128_iterate(LCG128_TEST_SEED, LCG128_TEST_ITERATIONS as nat))
                == LCG128_TEST_REFERENCE),
    {
        let mut state = Lcg128State { x: LCG128_TEST_SEED };
        let result = state.last_output(LCG128_TEST_ITERATIONS);
        let mut msg = String::from_str("Result: ");
        push_hex_upper(&mut msg, result, 16);
        msg.append("; reference value: ");
        push_hex_upper(&mut msg, LCG128_TEST_REFERENCE, 16);
        msg.append("\n");
        intf.rust_printf(msg.as_str());
        result == LCG128_TEST_REFERENCE
    }
}

} // verus!
