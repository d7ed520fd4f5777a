use vstd::prelude::*;

use crate::caller::{draw128, PrintfExt, SeedDraw, SeedLog, SeedSource};
use crate::numfmt::push_hex_upper;
use crate::output::PrngOutput;
use crate::prng::{Plugin, Prng};
use vstd::string::StringExecFns;
use vstd::arithmetic::div_mod::{
    lemma_fundamental_div_mod, lemma_fundamental_div_mod_converse, lemma_mod_multiples_vanish,
    lemma_small_mod,
};

verus! {

/// 2^64.
pub open spec fn two64() -> int {
    0x1_0000_0000_0000_0000
}

/// 2^127.
pub open spec fn two127() -> int {
    0x8000_0000_0000_0000_0000_0000_0000_0000
}

/// The Mersenne prime 2^127 - 1, the generator's modulus.
pub open spec fn mersenne127() -> int {
    two127() - 1
}

/// The representative in `0..=2^127 - 1` of `a * x` modulo 2^127 - 1 that
/// the generator keeps: the remainder, except that a nonzero product
/// divisible by the modulus is kept as the modulus itself.
pub open spec fn mulmod127(a: int, x: int) -> int {
    let r = (a * x) % mersenne127();
    if r == 0 && a * x != 0 {
        mersenne127()
    } else {
        r
    }
}

/// `a * x` split at bit 64: `a * x == prod1 * 2^64 + prod0 % 2^64` where
/// `prod0 = a * (x mod 2^64)` and `prod1 = a * (x div 2^64) + prod0 div 2^64`.
proof fn lemma_product_split(a: int, x: int, prod0: int, prod1: int)
    requires
        0 <= a < two64(),
        0 <= x < two127(),
        prod0 == a * (x % two64()),
        prod1 == a * (x / two64()) + prod0 / two64(),
    ensures
        0 <= prod0 < two64() * two64(),
        0 <= prod1 < two127(),
        a * x == prod1 * two64() + prod0 % two64(),
{
    let xlo = x % two64();
    let xhi = x / two64();
    lemma_fundamental_div_mod(x, two64());
    lemma_fundamental_div_mod(prod0, two64());
    assert(0 <= xlo < two64());
    assert(0 <= xhi < 0x8000_0000_0000_0000) by {
        assert(x < two64() * 0x8000_0000_0000_0000);
        vstd::arithmetic::div_mod::lemma_div_is_ordered(x, two64() * 0x8000_0000_0000_0000 - 1, two64());
        vstd::arithmetic::div_mod::lemma_fundamental_div_mod_converse(
            two64() * 0x8000_0000_0000_0000 - 1, two64(), 0x7FFF_FFFF_FFFF_FFFF, two64() - 1);
    }
    assert(0 <= prod0 <= (two64() - 1) * (two64() - 1)) by (nonlinear_arith)
        requires
            prod0 == a * xlo,
            0 <= a < two64(),
            0 <= xlo < two64(),
    ;
    assert(0 <= a * xhi <= (two64() - 1) * (0x8000_0000_0000_0000 - 1)) by (nonlinear_arith)
        requires
            0 <= a < two64(),
            0 <= xhi < 0x8000_0000_0000_0000,
    ;
    assert(0 <= prod0 / two64() < two64()) by {
        vstd::arithmetic::div_mod::lemma_div_is_ordered(prod0, two64() * two64() - 1, two64());
        vstd::arithmetic::div_mod::lemma_fundamental_div_mod_converse(
            two64() * two64() - 1, two64(), two64() - 1, two64() - 1);
    }
    assert(a * x == a * xhi * two64() + a * xlo) by (nonlinear_arith)
        requires
            x == two64() * xhi + xlo,
    ;
}

/// The folding step of the generator: with `a * x == h * 2^127 + l`,
/// `l < 2^127` and `s == h + l`, the value kept is `s` or `s - (2^127 - 1)`,
/// whichever lies below 2^127, and it is [`mulmod127`].
proof fn lemma_fold(a: int, x: int, h: int, l: int, s: int, r: int)
    requires
        0 <= a,
        0 <= x,
        a * x == h * two127() + l,
        0 <= h,
        0 <= l < two127(),
        s == h + l,
        r == (if s >= two127() { s - mersenne127() } else { s }),
        r < two127(),
    ensures
        r == mulmod127(a, x),
{
    let p = mersenne127();
    assert(a * x == p * h + s);
    lemma_mod_multiples_vanish(h, s, p);
    assert(s % p == r % p) by {
        if s >= two127() {
            lemma_mod_multiples_vanish(1, r, p);
        }
    }
    assert(0 <= r);
    if r < p {
        lemma_small_mod(r as nat, p as nat);
    } else {
        assert(r == p);
        lemma_fundamental_div_mod_converse(r, p, 1, 0);
    }
    if r == 0 {
        assert(s == 0);
        assert(a * x == 0);
    }
    if a * x == 0 {
        assert(h == 0) by (nonlinear_arith)
            requires
                h * two127() + l == 0,
                0 <= h,
                0 <= l,
                two127() > 0,
        ;
    }
}


/// The state after `n` steps from `x` with the multiplier [`MUL1`].
pub open spec fn lcg127_iterate(x: int, n: nat) -> int
    decreases n,
{
    if n == 0 {
        x
    } else {
        mulmod127(MUL1 as int, lcg127_iterate(x, (n - 1) as nat))
    }
}

/// The state seeded from a 128-bit seed: the seed halved, or 0x12345678
/// where that is zero.
pub open spec fn lcg127_seeded(seed: u128) -> int {
    if seed / 2 == 0 {
        0x12345678
    } else {
        (seed / 2) as int
    }
}

/// The number of outputs the self-test draws.
pub const LCG127_TEST_ITERATIONS: u64 = 1_000_000u64;

/// The last output the self-test expects.
pub const LCG127_TEST_REFERENCE: u64 = 0xe490c2a6c3e38bcdu64;

/// The multiplier of the generator.
pub const MUL1: u64 = 13433445539930070091u64;

/// The mask of the low 63 bits of a word.
const MASK63: u64 = 0x7fff_ffff_ffff_ffffu64;

/// The generator x <- a * x mod (2^127 - 1) that returns the low 64 bits
/// of the new state. The state always lies below 2^127.
pub struct Lcg127PrimeState {
    x: u128,
}

impl Lcg127PrimeState {
    #[verifier::type_invariant]
    spec fn state_fits(self) -> bool {
        self.x < two127()
    }

    /// The current state.
    pub closed spec fn state(self) -> u128 {
        self.x
    }

    /// A generator in state `x`, which must lie below 2^127.
    pub fn from_state(x: u128) -> (r: Self)
        requires
            x < two127(),
        ensures
            r.state() == x,
    {
        Lcg127PrimeState { x }
    }

    /// The current state.
    pub fn get_state(&self) -> (r: u128)
        ensures
            r == self.state(),
            r < two127(),
    {
        proof {
            use_type_invariant(self);
        }
        self.x
    }

    /// A generator seeded from a 128-bit seed: the seed halved, or
    /// 0x12345678 where that is zero.
    pub fn from_seed(seed: u128) -> (r: Self)
        ensures
            r.state() == lcg127_seeded(seed),
            0 < r.state() < two127(),
    {
        let half = seed >> 1u32;
        assert(half == seed / 2) by (bit_vector)
            requires
                half == seed >> 1u32,
        ;
        assert(seed / 2 < two127());
        let x = if half == 0 {
            0x12345678u128
        } else {
            half
        };
        Lcg127PrimeState { x }
    }

    /// Moves the state to `a * x mod (2^127 - 1)` (see [`mulmod127`]) and
    /// returns the low 64 bits of the new state.
    pub fn get_bits_generic_raw(&mut self, a: u64) -> (r: u64)
        ensures
            final(self).state() == mulmod127(a as int, old(self).state() as int),
            r as int == mulmod127(a as int, old(self).state() as int) % two64(),
    {
        proof {
            use_type_invariant(&*self);
        }
        let x = self.x;
        let a_val = a as u128;
        let xlo = (x as u64) as u128;
        let xhi = x >> 64u32;
        assert(xlo == x % 0x1_0000_0000_0000_0000u128 && xhi == x / 0x1_0000_0000_0000_0000u128)
            by (bit_vector)
            requires
                xlo == (x as u64) as u128,
                xhi == x >> 64u32,
        ;
        let ghost g0: int = a as int * xlo as int;
        let ghost g1: int = a as int * xhi as int + g0 / two64();
        proof {
            lemma_product_split(a as int, x as int, g0, g1);
        }
        let prod0 = a_val.wrapping_mul(xlo);
        assert(prod0 == g0);
        let carry0 = prod0 >> 64u32;
        assert(carry0 == prod0 / 0x1_0000_0000_0000_0000u128) by (bit_vector)
            requires
                carry0 == prod0 >> 64u32,
        ;
        assert(a as int * xhi as int <= g1);
        let prod1 = a_val.wrapping_mul(xhi).wrapping_add(carry0);
        assert(prod1 == g1);
        let mut m_low = prod0 as u64;
        let mut m_mid = prod1 as u64;
        let m_high = (prod1 >> 64u32) as u64;
        let h = (m_high << 1u32) | (m_mid >> 63u32);
        m_mid = m_mid & MASK63;
        assert(h as u128 == prod1 / 0x8000_0000_0000_0000u128 && m_mid as u128 == prod1
            % 0x8000_0000_0000_0000u128 && m_low as u128 == prod0 % 0x1_0000_0000_0000_0000u128
            && ((m_mid as u128) << 64u32) == (m_mid as u128) * 0x1_0000_0000_0000_0000u128
            && m_mid < 0x8000_0000_0000_0000u64) by (bit_vector)
            requires
                prod1 < 0x8000_0000_0000_0000_0000_0000_0000_0000u128,
                m_low == prod0 as u64,
                m_high == (prod1 >> 64u32) as u64,
                h == (m_high << 1u32) | ((prod1 as u64) >> 63u32),
                m_mid == (prod1 as u64) & 0x7fff_ffff_ffff_ffffu64,
        ;
        let ghost hh: int = h as int;
        let ghost ll: int = m_low as int + m_mid as int * two64();
        proof {
            lemma_fundamental_div_mod(prod1 as int, 0x8000_0000_0000_0000);
            assert(a as int * x as int == hh * two127() + ll) by (nonlinear_arith)
                requires
                    a as int * x as int == prod1 as int * two64() + m_low as int,
                    prod1 as int == 0x8000_0000_0000_0000 * hh + m_mid as int,
                    ll == m_low as int + m_mid as int * two64(),
            ;
        }
        let sum = (m_low as u128).wrapping_add((m_mid as u128) << 64u32).wrapping_add(h as u128);
        assert(sum == ll + hh);
        let mut s = sum;
        m_low = sum as u64;
        m_mid = (sum >> 64u32) as u64;
        assert((m_mid >> 63u32 != 0) == (sum >= 0x8000_0000_0000_0000_0000_0000_0000_0000u128))
            by (bit_vector)
            requires
                m_mid == (sum >> 64u32) as u64,
        ;
        if m_mid >> 63u32 != 0 {
            assert((m_low as u128) + ((m_mid as u128) << 64u32) == sum) by (bit_vector)
                requires
                    m_low == sum as u64,
                    m_mid == (sum >> 64u32) as u64,
            ;
            assert(sum < 0xFFFF_FFFF_FFFF_FFFF_FFFF_FFFF_FFFF_FFFFu128);
            let sum2 = (m_low as u128).wrapping_add((m_mid as u128) << 64u32).wrapping_add(1);
            assert(sum2 == sum + 1);
            s = sum2;
            m_low = sum2 as u64;
            m_mid = (sum2 >> 64u32) as u64;
        }
        let new_x = (m_low as u128) | (((m_mid & MASK63) as u128) << 64u32);
        assert(new_x == s % 0x8000_0000_0000_0000_0000_0000_0000_0000u128 && m_low as u128 == new_x
            % 0x1_0000_0000_0000_0000u128) by (bit_vector)
            requires
                m_low == s as u64,
                m_mid == (s >> 64u32) as u64,
                new_x == (m_low as u128) | (((m_mid & 0x7fff_ffff_ffff_ffffu64) as u128) << 64u32),
        ;
        proof {
            let r: int = if sum >= two127() { sum - mersenne127() } else { sum as int };
            if sum >= two127() {
                lemma_fundamental_div_mod_converse(s as int, two127(), 1, r);
            } else {
                lemma_small_mod(s as nat, two127() as nat);
            }
            lemma_fold(a as int, x as int, hh, ll, sum as int, r);
        }
        self.x = new_x;
        m_low
    }

    /// One step with the multiplier [`MUL1`]; returns the low 64 bits of
    /// the new state.
    pub fn get_bits_mul1_raw(&mut self) -> (r: u64)
        ensures
            final(self).state() == mulmod127(MUL1 as int, old(self).state() as int),
            r as int == mulmod127(MUL1 as int, old(self).state() as int) % two64(),
    {
        self.get_bits_generic_raw(MUL1)
    }

    /// Runs `n` steps with the multiplier [`MUL1`] and returns the last
    /// output.
    pub fn last_output(&mut self, n: u64) -> (r: u64)
        ensures
            final(self).state() == lcg127_iterate(old(self).state() as int, n as nat),
            n > 0 ==> r as int == final(self).state() as int % two64(),
            n == 0 ==> r == 0,
    {
        let ghost start = self.state();
        let mut u: u64 = 0;
        let mut i: u64 = 0;
        while i < n
            invariant
                i <= n,
                i == 0 ==> u == 0,
                self.state() == lcg127_iterate(start as int, i as nat),
                i > 0 ==> u as int == self.state() as int % two64(),
            decreases n - i,
        {
            u = self.get_bits_mul1_raw();
            i = i + 1;
        }
        u
    }

    /// A generator seeded from one 128-bit seed drawn from `intf` and
    /// recorded in `log` (see [`lcg127_seeded`]); `None` when the seed is
    /// refused. Exactly one 128-bit seed is drawn.
    pub fn new_recorded<C: SeedSource>(intf: &C, log: &mut SeedLog) -> (r: Option<Self>)
        ensures
            r matches Some(g) ==> 0 < g.state() < two127(),
            r matches Some(g) ==> exists|seed: u128|
                {
                    &&& final(log).draws() == old(log).draws().push(SeedDraw::Bits128(Some(seed)))
                    &&& call_ensures(C::seed128, (intf,), Some(seed))
                    &&& g.state() == lcg127_seeded(seed)
                },
            r is None ==> final(log).draws() == old(log).draws().push(SeedDraw::Bits128(None)),
            r is None ==> call_ensures(C::seed128, (intf,), None::<u128>),
    {
        match draw128(intf, log) {
            None => None,
            Some(seed) => Some(Self::from_seed(seed)),
        }
    }
}


impl Prng for Lcg127PrimeState {
    type Output = u64;

    proof fn lemma_output_word(self) {
        let v: u64 = self.spec_output();
        assert(v.spec_widen() == self.spec_output());
    }

    closed spec fn spec_step(self) -> Self {
        Lcg127PrimeState { x: mulmod127(MUL1 as int, self.x as int) as u128 }
    }

    closed spec fn spec_output(self) -> u64 {
        (mulmod127(MUL1 as int, self.x as int) % two64()) as u64
    }

    fn next(&mut self) -> (r: u64) {
        self.get_bits_mul1_raw()
    }

    fn name() -> (r: &'static str)
        ensures
            r@ == "Lcg127prime:mul1"@,
    {
        "Lcg127prime:mul1"
    }

    fn description() -> (r: &'static str)
        ensures
            r@ == "The x = ax mod 2**127 - 1 LCG that returns the lower 64 bits.\nUses multiplier a = 13433445539930070091"@,
    {
        "The x = ax mod 2**127 - 1 LCG that returns the lower 64 bits.\nUses multiplier a = 13433445539930070091"
    }
}

impl<C: SeedSource + PrintfExt> Plugin<C> for Lcg127PrimeState {
    fn new(intf: &C) -> (r: Option<Self>)
        ensures
            r matches Some(g) ==> 0 < g.state() < two127(),
            r matches Some(g) ==> exists|seed: u128|
                call_ensures(C::seed128, (intf,), Some(seed)) && g.state() == lcg127_seeded(seed),
            r is None ==> call_ensures(C::seed128, (intf,), None::<u128>),
    {
        let mut log = SeedLog::new();
        Lcg127PrimeState::new_recorded(intf, &mut log)
    }

    fn self_test(intf: &C) -> (r: bool)
        ensures
            r == (lcg127_iterate(1, LCG127_TEST_ITERATIONS as nat) % two64()
                == LCG127_TEST_REFERENCE as int),
    {
        let mut state = Lcg127PrimeState::from_state(1);
        let u = state.last_output(LCG127_TEST_ITERATIONS);
        let mut msg = String::from_str("Result: ");
        push_hex_upper(&mut msg, u, 0);
        msg.append("; reference value: ");
        push_hex_upper(&mut msg, LCG127_TEST_REFERENCE, 0);
        msg.append("\n");
        intf.rust_printf(msg.as_str());
        u == LCG127_TEST_REFERENCE
    }
}


/// One step of the generator takes the state `x` to
/// `MUL1 * x mod (2^127 - 1)` (see [`mulmod127`]) and outputs the low 64
/// bits of the new state.
pub proof fn lemma_lcg127prime_step(g: Lcg127PrimeState)
    ensures
        g.spec_step().state() == mulmod127(MUL1 as int, g.state() as int),
        g.spec_output() as int == mulmod127(MUL1 as int, g.state() as int) % two64(),
{
}


/// A nonzero state never becomes zero: `mulmod127` is zero only for a
/// zero product.
pub proof fn law_lcg127prime_never_zero(g: Lcg127PrimeState)
    requires
        g.state() != 0,
    ensures
        g.spec_step().state() != 0,
{
    assert(MUL1 as int * g.state() as int > 0) by (nonlinear_arith)
        requires
            g.state() > 0,
    ;
}

/// The state 2^127 - 1, which the seeds 2^128 - 1 and 2^128 - 2 give, is a
/// fixed point: the generator then returns 2^64 - 1 forever.
pub proof fn law_lcg127prime_modulus_is_fixed(g: Lcg127PrimeState)
    requires
        g.state() == mersenne127(),
    ensures
        g.spec_step().state() == mersenne127(),
        g.spec_output() == 0xFFFF_FFFF_FFFF_FFFFu64,
{
    vstd::arithmetic::div_mod::lemma_mod_multiples_basic(MUL1 as int, mersenne127());
    assert(MUL1 as int * mersenne127() == mersenne127() * MUL1 as int) by (nonlinear_arith);
    assert(MUL1 as int * mersenne127() != 0) by (nonlinear_arith);
    vstd::arithmetic::div_mod::lemma_fundamental_div_mod_converse(mersenne127(), two64(),
        0x7FFF_FFFF_FFFF_FFFF, 0xFFFF_FFFF_FFFF_FFFF);
}

} // verus!
