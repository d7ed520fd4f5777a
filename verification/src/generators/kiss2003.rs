use vstd::prelude::*;

use crate::caller::{draw64, PrintfExt, SeedDraw, SeedLog, SeedSource};
use crate::numfmt::push_hex_upper;
use crate::output::PrngOutput;
use crate::prng::{Plugin, Prng};
use vstd::string::StringExecFns;

verus! {

/// The multiplier of the LCG part.
pub const KISS_LCG_MUL: u32 = 69069u32;

/// The increment of the LCG part.
pub const KISS_LCG_INC: u32 = 12345u32;

/// The multiplier of the multiply-with-carry part.
pub const KISS_MWC_MUL: u64 = 698769069u64;

/// The state of the self-test.
pub open spec fn kiss_test_state() -> Kiss03State {
    Kiss03State { x: 123456789, y: 987654321, z: 43219876, c: 6543217 }
}

/// The number of outputs the self-test draws.
pub const KISS_TEST_ITERATIONS: u64 = 10_000_000u64;

/// The last output the self-test expects.
pub const KISS_TEST_REFERENCE: u32 = 0x8E41D4F8u32;

/// The xorshift32 step `y ^= y << 13; y ^= y >> 17; y ^= y << 5`.
pub open spec fn xorshift32(y: u32) -> u32 {
    let y1 = y ^ (y << 13u32);
    let y2 = y1 ^ (y1 >> 17u32);
    y2 ^ (y2 << 5u32)
}

/// `KISS_MWC_MUL * z + c`, the multiply-with-carry step before it is
/// split into a new `z` (low word) and a new `c` (high word).
pub open spec fn kiss_mwc_t(z: u32, c: u32) -> nat {
    KISS_MWC_MUL as nat * z as nat + c as nat
}

/// One step of KISS2003: the LCG `x <- 69069 * x + 12345 mod 2^32`, the
/// xorshift32 step on `y`, and the multiply-with-carry step
/// `t = 698769069 * z + c`, `z <- t mod 2^32`, `c <- t div 2^32`.
pub open spec fn kiss_step(s: Kiss03State) -> Kiss03State {
    let t = kiss_mwc_t(s.z, s.c);
    Kiss03State {
        x: ((KISS_LCG_MUL as nat * s.x as nat + KISS_LCG_INC as nat) % 0x1_0000_0000) as u32,
        y: xorshift32(s.y),
        z: (t % 0x1_0000_0000) as u32,
        c: (t / 0x1_0000_0000) as u32,
    }
}

/// The output of KISS2003 in state `s`: `x + y + z mod 2^32`.
pub open spec fn kiss_sum(s: Kiss03State) -> u32 {
    ((s.x as nat + s.y as nat + s.z as nat) % 0x1_0000_0000) as u32
}

/// The state after `n` steps from `s`.
pub open spec fn kiss_iterate(s: Kiss03State, n: nat) -> Kiss03State
    decreases n,
{
    if n == 0 {
        s
    } else {
        kiss_step(kiss_iterate(s, (n - 1) as nat))
    }
}

/// The state seeded from two 64-bit seeds: `x` and `y` from the high and
/// low halves of the first (`y` replaced by 0x12345678 where it is zero),
/// `z` from the high half of the second and `c` from its low 28 bits plus
/// one.
pub open spec fn kiss_seeded(seed1: u64, seed2: u64) -> Kiss03State {
    Kiss03State {
        x: (seed1 / 0x1_0000_0000) as u32,
        y: if seed1 % 0x1_0000_0000 == 0 {
            0x12345678u32
        } else {
            (seed1 % 0x1_0000_0000) as u32
        },
        z: (seed2 / 0x1_0000_0000) as u32,
        c: (seed2 % 0x1000_0000 + 1) as u32,
    }
}

/// The KISS2003 combined generator: an LCG (`x`), a xorshift32 (`y`) and a
/// multiply-with-carry generator (`z`, carry `c`); its output is the sum of
/// the three new words modulo 2^32.
pub struct Kiss03State {
    pub x: u32,
    pub y: u32,
    pub z: u32,
    pub c: u32,
}

impl Kiss03State {
    /// The state in which the generator gives good output: the xorshift
    /// word is not zero and the carry lies below the multiplier.
    pub open spec fn well_seeded(self) -> bool {
        self.y != 0 && (self.c as nat) < KISS_MWC_MUL as nat
    }

    /// A generator seeded from two 64-bit seeds: `x` and `y` from the high
    /// and low halves of the first (`y` replaced by 0x12345678 where it is
    /// zero), `z` from the high half of the second and `c` from its low 28
    /// bits plus one.
    pub fn from_seeds(seed1: u64, seed2: u64) -> (r: Self)
        ensures
            r.x == seed1 / 0x1_0000_0000,
            r.y == (if seed1 % 0x1_0000_0000 == 0 { 0x12345678 } else { seed1 % 0x1_0000_0000 }),
            r.z == seed2 / 0x1_0000_0000,
            r.c == seed2 % 0x1000_0000 + 1,
            r.well_seeded(),
            r == kiss_seeded(seed1, seed2),
    {
        let x = (seed1 >> 32u64) as u32;
        let y = match (seed1 & 0xFFFFFFFFu64) as u32 {
            0 => 0x12345678u32,
            y_raw => y_raw,
        };
        let z = (seed2 >> 32u64) as u32;
        assert(seed2 & 0xFFFFFFFu64 <= 0xFFFFFFFu64) by (bit_vector);
        let c = ((seed2 & 0xFFFFFFFu64) + 1) as u32;
        assert(x == seed1 / 0x1_0000_0000 && (seed1 & 0xFFFFFFFFu64) as u32 == seed1 % 0x1_0000_0000
            && z == seed2 / 0x1_0000_0000 && seed2 & 0xFFFFFFFu64 == seed2 % 0x1000_0000)
            by (bit_vector)
            requires
                x == (seed1 >> 32u64) as u32,
                z == (seed2 >> 32u64) as u32,
        ;
        Kiss03State { x, y, z, c }
    }
    /// One step ([`kiss_step`]); returns the output of the new state.
    pub fn advance(&mut self) -> (r: u32)
        ensures
            *final(self) == kiss_step(*old(self)),
            r == kiss_sum(*final(self)),
    {
        let ghost old_self = *self;
        // LCG part
        let m = KISS_LCG_MUL.wrapping_mul(self.x);
        proof {
            let sum = m as nat + KISS_LCG_INC as nat;
            if sum >= 0x1_0000_0000 {
                vstd::arithmetic::div_mod::lemma_fundamental_div_mod_converse(sum as int,
                    0x1_0000_0000, 1, sum - 0x1_0000_0000);
            } else {
                vstd::arithmetic::div_mod::lemma_small_mod(sum, 0x1_0000_0000);
            }
            vstd::arithmetic::div_mod::lemma_add_mod_noop(
                (KISS_LCG_MUL as nat * self.x as nat) as int,
                KISS_LCG_INC as int,
                0x1_0000_0000,
            );
            vstd::arithmetic::div_mod::lemma_small_mod(KISS_LCG_INC as nat, 0x1_0000_0000);
        }
        self.x = m.wrapping_add(KISS_LCG_INC);
        // Xorshift part
        self.y = self.y ^ (self.y << 13u32);
        self.y = self.y ^ (self.y >> 17u32);
        self.y = self.y ^ (self.y << 5u32);
        // MWC part
        let zc = self.z;
        let cc = self.c;
        assert(KISS_MWC_MUL * (zc as u64) + (cc as u64) <= 0xFFFF_FFFF_FFFF_FFFF) by (nonlinear_arith)
            requires
                zc <= 0xFFFF_FFFFu32,
                cc <= 0xFFFF_FFFFu32,
        ;
        let t = KISS_MWC_MUL.wrapping_mul(zc as u64).wrapping_add(cc as u64);
        assert(t == kiss_mwc_t(zc, cc));
        self.c = (t >> 32u64) as u32;
        self.z = t as u32;
        assert((t >> 32u64) as u32 == t / 0x1_0000_0000 && t as u32 == t % 0x1_0000_0000)
            by (bit_vector);
        // Combined output
        let s1 = self.x.wrapping_add(self.y);
        let out = s1.wrapping_add(self.z);
        proof {
            let a = self.x as nat;
            let b = self.y as nat;
            let cz = self.z as nat;
            vstd::arithmetic::div_mod::lemma_add_mod_noop((a + b) as int, cz as int, 0x1_0000_0000);
            if a + b >= 0x1_0000_0000 {
                vstd::arithmetic::div_mod::lemma_fundamental_div_mod_converse((a + b) as int,
                    0x1_0000_0000, 1, a + b - 0x1_0000_0000);
            } else {
                vstd::arithmetic::div_mod::lemma_small_mod(a + b, 0x1_0000_0000);
            }
            let s = s1 as nat + cz;
            if s >= 0x1_0000_0000 {
                vstd::arithmetic::div_mod::lemma_fundamental_div_mod_converse(s as int,
                    0x1_0000_0000, 1, s - 0x1_0000_0000);
            } else {
                vstd::arithmetic::div_mod::lemma_small_mod(s, 0x1_0000_0000);
            }
            vstd::arithmetic::div_mod::lemma_small_mod(cz, 0x1_0000_0000);
            assert(*self == kiss_step(old_self));
        }
        out
    }


    /// Runs `n` steps and returns the last output.
    pub fn last_output(&mut self, n: u64) -> (r: u32)
        ensures
            *final(self) == kiss_iterate(*old(self), n as nat),
            n > 0 ==> r == kiss_sum(*final(self)),
            n == 0 ==> r == 0,
    {
        let ghost start = *self;
        let mut u: u32 = 0;
        let mut i: u64 = 0;
        while i < n
            invariant
                i <= n,
                i == 0 ==> u == 0,
                *self == kiss_iterate(start, i as nat),
                i > 0 ==> u == kiss_sum(*self),
            decreases n - i,
        {
            u = self.advance();
            i = i + 1;
        }
        u
    }

    /// A generator seeded from two 64-bit seeds drawn from `intf`, each
    /// recorded in `log`: `x` and `y` come from the high and low halves of
    /// the first seed drawn (`y` replaced by 0x12345678 where it is zero),
    /// `z` from the high half of the second and `c` from its low 28 bits
    /// plus one. `None` when a seed is refused; the second seed is drawn
    /// only when the first was given.
    pub fn new_recorded<C: SeedSource>(intf: &C, log: &mut SeedLog) -> (r: Option<Self>)
        ensures
            r matches Some(g) ==> g.well_seeded(),
            r matches Some(g) ==> exists|s1: u64, s2: u64|
                {
                    &&& final(log).draws() == old(log).draws().push(SeedDraw::Bits64(Some(s1))).push(
                        SeedDraw::Bits64(Some(s2)),
                    )
                    &&& call_ensures(C::seed64, (intf,), Some(s1))
                    &&& call_ensures(C::seed64, (intf,), Some(s2))
                    &&& g.x == s1 / 0x1_0000_0000
                    &&& g.y == (if s1 % 0x1_0000_0000 == 0 {
                        0x12345678
                    } else {
                        s1 % 0x1_0000_0000
                    })
                    &&& g.z == s2 / 0x1_0000_0000
                    &&& g.c == s2 % 0x1000_0000 + 1
                },
            r is None ==> call_ensures(C::seed64, (intf,), None::<u64>),
            r is None ==> final(log).draws() == old(log).draws().push(SeedDraw::Bits64(None))
                || exists|s1: u64|
                final(log).draws() == old(log).draws().push(SeedDraw::Bits64(Some(s1))).push(
                    SeedDraw::Bits64(None),
                ),
    {
        let seed1 = match draw64(intf, log) {
            Some(s) => s,
            None => return None,
        };
        let seed2 = match draw64(intf, log) {
            Some(s) => s,
            None => return None,
        };
        Some(Self::from_seeds(seed1, seed2))
    }
}

impl Prng for Kiss03State {
    type Output = u32;

    proof fn lemma_output_word(self) {
        let v: u32 = kiss_sum(kiss_step(self));
        assert(v.spec_widen() == self.spec_output());
    }

    open spec fn spec_step(self) -> Self {
        kiss_step(self)
    }

    open spec fn spec_output(self) -> u64 {
        kiss_sum(kiss_step(self)) as u64
    }

    fn next(&mut self) -> (r: u32) {
        self.advance()
    }

    fn name() -> (r: &'static str)
        ensures
            r@ == "KISS2003"@,
    {
        "KISS2003"
    }

    fn description() -> (r: &'static str)
        ensures
            r@ == "KISS2003 combined PRNG (LCG + Xorshift + MWC)"@,
    {
        "KISS2003 combined PRNG (LCG + Xorshift + MWC)"
    }
}

impl<C: SeedSource + PrintfExt> Plugin<C> for Kiss03State {
    fn new(intf: &C) -> (r: Option<Self>)
        ensures
            r matches Some(g) ==> g.well_seeded(),
            r matches Some(g) ==> exists|s1: u64, s2: u64|
                call_ensures(C::seed64, (intf,), Some(s1)) && call_ensures(C::seed64, (intf,), Some(s2))
                    && g == kiss_seeded(s1, s2),
            r is None ==> call_ensures(C::seed64, (intf,), None::<u64>),
    {
        let mut log = SeedLog::new();
        let r = Kiss03State::new_recorded(intf, &mut log);
        proof {
            if r is Some {
                let g = r->0;
                let (s1, s2) = choose|s1: u64, s2: u64|
                    {
                        &&& call_ensures(C::seed64, (intf,), Some(s1))
                        &&& call_ensures(C::seed64, (intf,), Some(s2))
                        &&& g.x == s1 / 0x1_0000_0000
                        &&& g.y == (if s1 % 0x1_0000_0000 == 0 {
                            0x12345678
                        } else {
                            s1 % 0x1_0000_0000
                        })
                        &&& g.z == s2 / 0x1_0000_0000
                        &&& g.c == s2 % 0x1000_0000 + 1
                    };
                assert(g == kiss_seeded(s1, s2));
            }
        }
        r
    }

    fn self_test(intf: &C) -> (r: bool)
        ensures
            r == (kiss_sum(kiss_iterate(kiss_test_state(), KISS_TEST_ITERATIONS as nat))
                == KISS_TEST_REFERENCE),
    {
        let mut state = Kiss03State { x: 123456789, y: 987654321, z: 43219876, c: 6543217 };
        let x = state.last_output(KISS_TEST_ITERATIONS);
        let mut msg = String::from_str("Observed: 0x");
        push_hex_upper(&mut msg, x as u64, 8);
        msg.append("; expected: 0x");
        push_hex_upper(&mut msg, KISS_TEST_REFERENCE as u64, 8);
        msg.append("\n");
        intf.rust_printf(msg.as_str());
        x == KISS_TEST_REFERENCE
    }
}

/// The xorshift32 step never turns a nonzero word into zero.
pub proof fn law_xorshift32_nonzero(y: u32)
    requires
        y != 0,
    ensures
        xorshift32(y) != 0,
{
    assert(y != 0 ==> (y ^ (y << 13u32)) ^ ((y ^ (y << 13u32)) >> 17u32) ^ (((y ^ (y << 13u32))
        ^ ((y ^ (y << 13u32)) >> 17u32)) << 5u32) != 0) by (bit_vector);
}

/// A well-seeded KISS2003 state stays well seeded: the xorshift word stays
/// nonzero and the carry stays below the multiplier.
pub proof fn law_kiss_stays_well_seeded(g: Kiss03State)
    requires
        g.well_seeded(),
    ensures
        g.spec_step().well_seeded(),
{
    law_xorshift32_nonzero(g.y);
    let t = kiss_mwc_t(g.z, g.c);
    assert(t < KISS_MWC_MUL as nat * 0x1_0000_0000) by (nonlinear_arith)
        requires
            t == KISS_MWC_MUL as nat * g.z as nat + g.c as nat,
            g.z as nat <= 0xFFFF_FFFF,
            (g.c as nat) < KISS_MWC_MUL as nat,
    ;
    vstd::arithmetic::div_mod::lemma_div_by_multiple_is_strongly_ordered(t as int,
        (KISS_MWC_MUL as nat * 0x1_0000_0000) as int, KISS_MWC_MUL as int, 0x1_0000_0000);
    vstd::arithmetic::div_mod::lemma_div_by_multiple(KISS_MWC_MUL as int, 0x1_0000_0000);
}

/// The multiply-with-carry part never reaches the all-zero state from a
/// state that is not all zero.
pub proof fn law_kiss_mwc_nonzero(g: Kiss03State)
    requires
        g.z != 0 || g.c != 0,
    ensures
        g.spec_step().z != 0 || g.spec_step().c != 0,
{
    let t = kiss_mwc_t(g.z, g.c);
    assert(t > 0) by (nonlinear_arith)
        requires
            t == KISS_MWC_MUL as nat * g.z as nat + g.c as nat,
            g.z != 0 || g.c != 0,
    ;
    vstd::arithmetic::div_mod::lemma_fundamental_div_mod(t as int, 0x1_0000_0000);
}

} // verus!
