use vstd::prelude::*;
use vstd::arithmetic::div_mod::lemma_add_mod_noop;

use crate::caller::{PrintfExt, SeedSource};
use crate::output::PrngOutput;
use crate::prng::{iterate, output_sum, lemma_iterate_succ, lemma_iterate_add, Plugin, Prng};

verus! {

/// 2 to the 64th.
pub open spec fn u64_modulus() -> nat {
    0x1_0000_0000_0000_0000
}

/// One output of the generator, widened to `u64`.
pub fn get_bits<G: Prng>(state: &mut G) -> (r: u64)
    ensures
        *final(state) == old(state).spec_step(),
        r == old(state).spec_output(),
        exists|v: G::Output| r == v.spec_widen(),
        <G::Output as PrngOutput>::spec_bits() == 32 ==> r < 0x1_0000_0000u64,
{
    let v = state.next();
    proof {
        <G::Output as PrngOutput>::lemma_widen_fits(v);
    }
    v.to_u64()
}

/// The sum, wrapping modulo 2^64, of the next `len` outputs of the
/// generator, each widened to `u64`; the generator moves `len` steps.
pub fn get_sum<G: Prng>(state: &mut G, len: usize) -> (r: u64)
    ensures
        *final(state) == iterate(*old(state), len as nat),
        r as nat == output_sum(*old(state), len as nat) % u64_modulus(),
        <G::Output as PrngOutput>::spec_bits() == 32 && len <= 0x1_0000_0000 ==> r as nat
            == output_sum(*old(state), len as nat),
{
    let ghost start = *state;
    let mut sum: u64 = 0;
    let mut i: usize = 0;
    while i < len
        invariant
            i <= len,
            *state == iterate(start, i as nat),
            sum as nat == output_sum(start, i as nat) % u64_modulus(),
        decreases len - i,
    {
        let val = get_bits(state);
        proof {
            lemma_iterate_succ(start, i as nat);
            lemma_add_mod_noop(output_sum(start, i as nat) as int, val as int, u64_modulus() as int);
            assert(val as int % u64_modulus() as int == val as int);
        }
        sum = sum.wrapping_add(val);
        i = i + 1;
    }
    proof {
        if <G::Output as PrngOutput>::spec_bits() == 32 && len <= 0x1_0000_0000 {
            law_sum_of_32_bit_outputs(start, len as nat);
        }
    }
    sum
}

/// A new generator for the framework: `None` when the framework gave no
/// interface, else what the generator's own `new` gives on that interface
/// (`None` when it could not be seeded).
pub fn create<G: Plugin<C>, C: SeedSource + PrintfExt>(intf: Option<&C>) -> (r: Option<G>)
    ensures
        intf is None ==> r is None,
        intf matches Some(i) ==> call_ensures(<G as Plugin<C>>::new, (i,), r),
{
    match intf {
        None => None,
        Some(intf) => G::new(intf),
    }
}

/// The framework's code for a self-test outcome: 1 when it passed, else 0.
pub fn self_test_code(passed: bool) -> (r: i32)
    ensures
        r == (if passed { 1i32 } else { 0i32 }),
{
    if passed {
        1
    } else {
        0
    }
}

/// Runs the generator's self-test for the framework: 0 when the framework
/// gave no interface, else 1 when the generator's own test passed and 0
/// when it failed.
pub fn self_test<G: Plugin<C>, C: SeedSource + PrintfExt>(intf: Option<&C>) -> (r: i32)
    ensures
        intf is None ==> r == 0,
        intf matches Some(i) ==> exists|passed: bool|
            call_ensures(<G as Plugin<C>>::self_test, (i,), passed) && r == (if passed {
                1i32
            } else {
                0i32
            }),
{
    match intf {
        None => 0,
        Some(intf) => {
            let passed = G::self_test(intf);
            self_test_code(passed)
        },
    }
}

/// Summing `a + b` outputs gives, modulo 2^64, the sum of the first `a`
/// outputs plus the sum of the `b` outputs that follow them, and leaves the
/// generator where `a` steps and then `b` steps leave it.
pub proof fn law_sum_splits<G: Prng>(g: G, a: nat, b: nat)
    ensures
        iterate(g, a + b) == iterate(iterate(g, a), b),
        output_sum(g, a + b) % u64_modulus() == (output_sum(g, a) % u64_modulus() + output_sum(
            iterate(g, a),
            b,
        ) % u64_modulus()) % u64_modulus(),
{
    lemma_iterate_add(g, a, b);
    lemma_add_mod_noop(
        output_sum(g, a) as int,
        output_sum(iterate(g, a), b) as int,
        u64_modulus() as int,
    );
}

/// The sum of one output is that output: `get_sum` over one step agrees
/// with `get_bits`.
pub proof fn law_sum_of_one<G: Prng>(g: G)
    ensures
        iterate(g, 1) == g.spec_step(),
        output_sum(g, 1) % u64_modulus() == g.spec_output(),
{
    lemma_iterate_succ(g, 0);
}


/// One output of a generator with 32-bit output words lies below 2^32.
pub proof fn law_output_fits<G: Prng>(g: G)
    ensures
        <G::Output as PrngOutput>::spec_bits() == 32 ==> g.spec_output() < 0x1_0000_0000u64,
{
    g.lemma_output_word();
    let v = choose|v: G::Output| v.spec_widen() == g.spec_output();
    <G::Output as PrngOutput>::lemma_widen_fits(v);
}

/// With 32-bit output words, the sum of `n` outputs is at most
/// `n * (2^32 - 1)`; for `n <= 2^32` it lies below 2^64, so `get_sum`
/// returns it exactly, with no wrapping.
pub proof fn law_sum_of_32_bit_outputs<G: Prng>(g: G, n: nat)
    requires
        <G::Output as PrngOutput>::spec_bits() == 32,
    ensures
        output_sum(g, n) <= n * 0xFFFF_FFFF,
        n <= 0x1_0000_0000 ==> output_sum(g, n) < u64_modulus(),
        n <= 0x1_0000_0000 ==> output_sum(g, n) % u64_modulus() == output_sum(g, n),
    decreases n,
{
    if n > 0 {
        law_output_fits(g);
        law_sum_of_32_bit_outputs(g.spec_step(), (n - 1) as nat);
        assert(output_sum(g, n) == g.spec_output() as nat + output_sum(g.spec_step(), (n - 1) as nat));
        assert((n - 1) as nat * 0xFFFF_FFFF + 0xFFFF_FFFF == n * 0xFFFF_FFFF) by (nonlinear_arith)
            requires
                n > 0,
        ;
    }
    if n <= 0x1_0000_0000 {
        assert(n * 0xFFFF_FFFF < u64_modulus()) by (nonlinear_arith)
            requires
                n <= 0x1_0000_0000,
        ;
        vstd::arithmetic::div_mod::lemma_small_mod(output_sum(g, n), u64_modulus());
    }
}

} // verus!
