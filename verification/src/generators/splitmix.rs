use vstd::prelude::*;
use vstd::arithmetic::div_mod::{lemma_mul_mod_noop_left, lemma_mul_mod_noop_right, lemma_small_mod};
use vstd::arithmetic::mul::lemma_mul_is_associative;

use crate::caller::{draw64, PrintfExt, SeedDraw, SeedLog, SeedSource};
use crate::output::PrngOutput;
use crate::prng::{Plugin, Prng};

verus! {

/// The increment of the SplitMix64 state (the golden ratio in 64 bits).
pub const GAMMA: u64 = 0x9E3779B97F4A7C15u64;

/// The first multiplier of the output mix.
pub const MIX_MUL1: u64 = 0xBF58476D1CE4E5B9u64;

/// The second multiplier of the output mix.
pub const MIX_MUL2: u64 = 0x94D049BB133111EBu64;

/// 2^64.
pub open spec fn modulus64() -> nat {
    0x1_0000_0000_0000_0000
}

/// `a * b` modulo 2^64.
pub open spec fn mul64(a: u64, b: u64) -> u64 {
    ((a as nat * b as nat) % modulus64()) as u64
}

/// `a + b` modulo 2^64.
pub open spec fn add64(a: u64, b: u64) -> u64 {
    ((a as nat + b as nat) % modulus64()) as u64
}

/// The SplitMix64 output function of a state word.
pub open spec fn splitmix_mix(z: u64) -> u64 {
    let z1 = mul64(z ^ (z >> 30u64), MIX_MUL1);
    let z2 = mul64(z1 ^ (z1 >> 27u64), MIX_MUL2);
    z2 ^ (z2 >> 31u64)
}

/// The SplitMix64 generator: the state advances by [`GAMMA`] and the
/// output is the mixed new state.
pub struct SplitMixState {
    pub x: u64,
}

impl SplitMixState {
    /// Whether two consecutive outputs of a generator in this state
    /// differ; they always do.
    pub fn consecutive_outputs_differ(self) -> (r: bool)
        ensures
            r,
    {
        let mut test_state = self;
        let a = test_state.next();
        let b = test_state.next();
        proof {
            law_splitmix_consecutive_outputs_differ(self);
        }
        a != b
    }

    /// A generator whose state is one 64-bit seed drawn from `intf` and
    /// recorded in `log`; `None` when the seed is refused. Exactly one seed
    /// is drawn.
    pub fn new_recorded<C: SeedSource>(intf: &C, log: &mut SeedLog) -> (r: Option<Self>)
        ensures
            r matches Some(g) ==> final(log).draws() == old(log).draws().push(
                SeedDraw::Bits64(Some(g.x)),
            ),
            r is None ==> final(log).draws() == old(log).draws().push(SeedDraw::Bits64(None)),
            r matches Some(g) ==> call_ensures(C::seed64, (intf,), Some(g.x)),
            r is None ==> call_ensures(C::seed64, (intf,), None::<u64>),
    {
        match draw64(intf, log) {
            Some(seed) => Some(SplitMixState { x: seed }),
            None => None,
        }
    }
}

impl Prng for SplitMixState {
    type Output = u64;

    proof fn lemma_output_word(self) {
        let v: u64 = self.spec_output();
        assert(v.spec_widen() == self.spec_output());
    }

    open spec fn spec_step(self) -> Self {
        SplitMixState { x: add64(self.x, GAMMA) }
    }

    open spec fn spec_output(self) -> u64 {
        splitmix_mix(add64(self.x, GAMMA))
    }

    fn next(&mut self) -> (r: u64) {
        proof {
            if self.x as nat + GAMMA as nat >= modulus64() {
                lemma_small_mod((self.x as nat + GAMMA as nat - modulus64()) as nat, modulus64());
                vstd::arithmetic::div_mod::lemma_mod_multiples_vanish(
                    1,
                    (self.x as nat + GAMMA as nat - modulus64()) as int,
                    modulus64() as int,
                );
            } else {
                lemma_small_mod((self.x as nat + GAMMA as nat) as nat, modulus64());
            }
        }
        self.x = self.x.wrapping_add(GAMMA);
        let mut z = self.x;
        z = (z ^ (z >> 30u64)).wrapping_mul(MIX_MUL1);
        z = (z ^ (z >> 27u64)).wrapping_mul(MIX_MUL2);
        z ^ (z >> 31u64)
    }

    fn name() -> (r: &'static str)
        ensures
            r@ == "SplitMix"@,
    {
        "SplitMix"
    }

    fn description() -> (r: &'static str)
        ensures
            r@ == "SplitMix64 generator"@,
    {
        "SplitMix64 generator"
    }
}

impl<C: SeedSource + PrintfExt> Plugin<C> for SplitMixState {
    fn new(intf: &C) -> (r: Option<Self>)
        ensures
            r matches Some(g) ==> call_ensures(C::seed64, (intf,), Some(g.x)),
            r is None ==> call_ensures(C::seed64, (intf,), None::<u64>),
    {
        let mut log = SeedLog::new();
        SplitMixState::new_recorded(intf, &mut log)
    }

    fn self_test(intf: &C) -> (r: bool)
        ensures
            r ==> exists|s: u64| call_ensures(C::seed64, (intf,), Some(s)),
            !r ==> call_ensures(C::seed64, (intf,), None::<u64>),
    {
        match Self::new(intf) {
            Some(state) => state.consecutive_outputs_differ(),
            None => false,
        }
    }
}

/// `z ^ (z >> k)` determines `z`.
proof fn lemma_xorshift_injective(a: u64, b: u64)
    ensures
        a ^ (a >> 30u64) == b ^ (b >> 30u64) ==> a == b,
        a ^ (a >> 27u64) == b ^ (b >> 27u64) ==> a == b,
        a ^ (a >> 31u64) == b ^ (b >> 31u64) ==> a == b,
{
    assert(a ^ (a >> 30u64) == b ^ (b >> 30u64) ==> a == b) by (bit_vector);
    assert(a ^ (a >> 27u64) == b ^ (b >> 27u64) ==> a == b) by (bit_vector);
    assert(a ^ (a >> 31u64) == b ^ (b >> 31u64) ==> a == b) by (bit_vector);
}

/// Multiplying by `m` modulo 2^64 is undone by multiplying by `inv`.
proof fn lemma_mul_undo(a: u64, m: u64, inv: u64)
    requires
        (m as nat * inv as nat) % modulus64() == 1,
    ensures
        (mul64(a, m) as nat * inv as nat) % modulus64() == a,
{
    let n = modulus64() as int;
    lemma_mul_mod_noop_left(a as int * m as int, inv as int, n);
    lemma_mul_is_associative(a as int, m as int, inv as int);
    lemma_mul_mod_noop_right(a as int, m as int * inv as int, n);
    lemma_small_mod(a as nat, modulus64());
}

/// The output mix of SplitMix64 is one to one.
pub proof fn law_splitmix_mix_injective(a: u64, b: u64)
    requires
        splitmix_mix(a) == splitmix_mix(b),
    ensures
        a == b,
{
    let inv1: u64 = 0x96de1b173f119089u64;
    let inv2: u64 = 0x319642b2d24d8ec3u64;
    assert((MIX_MUL1 as nat * inv1 as nat) % modulus64() == 1);
    assert((MIX_MUL2 as nat * inv2 as nat) % modulus64() == 1);
    let a1 = mul64(a ^ (a >> 30u64), MIX_MUL1);
    let b1 = mul64(b ^ (b >> 30u64), MIX_MUL1);
    let a2 = mul64(a1 ^ (a1 >> 27u64), MIX_MUL2);
    let b2 = mul64(b1 ^ (b1 >> 27u64), MIX_MUL2);
    lemma_xorshift_injective(a2, b2);
    lemma_mul_undo(a1 ^ (a1 >> 27u64), MIX_MUL2, inv2);
    lemma_mul_undo(b1 ^ (b1 >> 27u64), MIX_MUL2, inv2);
    lemma_xorshift_injective(a1, b1);
    lemma_mul_undo(a ^ (a >> 30u64), MIX_MUL1, inv1);
    lemma_mul_undo(b ^ (b >> 30u64), MIX_MUL1, inv1);
    lemma_xorshift_injective(a, b);
}

/// Two consecutive outputs of SplitMix64 always differ, whatever the
/// state: the states they mix differ by [`GAMMA`] and the mix is one to
/// one.
pub proof fn law_splitmix_consecutive_outputs_differ(g: SplitMixState)
    ensures
        g.spec_output() != g.spec_step().spec_output(),
{
    let s1 = add64(g.x, GAMMA);
    let s2 = add64(s1, GAMMA);
    if splitmix_mix(s1) == splitmix_mix(s2) {
        law_splitmix_mix_injective(s1, s2);
        assert(s1 != s2) by {
            vstd::arithmetic::div_mod::lemma_fundamental_div_mod(
                (s1 as nat + GAMMA as nat) as int,
                modulus64() as int,
            );
        }
    }
}

} // verus!
