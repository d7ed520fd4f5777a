use vstd::prelude::*;
use vstd::string::StringSliceAdditionalSpecFns;

use crate::caller::{draw32, draw64, PrintfExt, SeedDraw, SeedLog, SeedSource};
use crate::output::PrngOutput;
use crate::prng::{Plugin, Prng};

verus! {

/// A machine word of a multiply-with-carry generator: `u32` or `u64`.
///
/// `val` is the word's value and `base` is 2 to the word's width.
pub trait MwcWord: Copy + Sized {
    /// The output type of a generator built on this word.
    type PrngOutput: PrngOutput;

    /// The value of the word.
    spec fn val(self) -> nat;

    /// 2 to the word's width.
    spec fn base() -> nat;

    /// The word whose value is `v` modulo [`MwcWord::base`].
    spec fn from_val(v: nat) -> Self;

    /// The output scrambler: the word xored with two of its rotations.
    spec fn spec_scramble(self) -> Self;

    /// The facts about words that the generator rests on.
    proof fn lemma_word(w: Self)
        ensures
            w.val() < Self::base(),
            Self::from_val(w.val()) == w,
            Self::base() >= 0x1_0000_0000,
            Self::base() % 2 == 0,
    ;

    /// `from_val` keeps every value below the base.
    proof fn lemma_from_val(v: nat)
        requires
            v < Self::base(),
        ensures
            Self::from_val(v).val() == v,
    ;

    /// The width of the word in bits.
    fn bits() -> (r: u32)
        ensures
            r == 32 || r == 64,
            Self::base() == (if r == 32 { 0x1_0000_0000nat } else { 0x1_0000_0000_0000_0000nat }),
    ;

    /// A 32-bit seed outcome as a word outcome (for 32-bit words).
    spec fn lift32(v: Option<u32>) -> Option<Self>;

    /// A 64-bit seed outcome as a word outcome (for 64-bit words).
    spec fn lift64(v: Option<u64>) -> Option<Self>;

    /// A word drawn from the framework's seeds: a 32-bit seed for 32-bit
    /// words, a 64-bit seed for 64-bit words.
    fn from_seed<C: SeedSource>(intf: &C) -> (r: Option<Self>)
        ensures
            Self::base() == 0x1_0000_0000 ==> exists|v: Option<u32>|
                call_ensures(C::seed32, (intf,), v) && r == Self::lift32(v),
            Self::base() == 0x1_0000_0000_0000_0000 ==> exists|v: Option<u64>|
                call_ensures(C::seed64, (intf,), v) && r == Self::lift64(v),
    ;

    /// The record of drawing one word's seed that gave `r`: a 32-bit draw
    /// for 32-bit words, a 64-bit draw for 64-bit words.
    spec fn seed_draw(r: Option<Self>) -> SeedDraw;

    /// Draws a word from the framework's seeds as [`MwcWord::from_seed`]
    /// does, recording the draw in `log`.
    fn draw_seed<C: SeedSource>(intf: &C, log: &mut SeedLog) -> (r: Option<Self>)
        ensures
            Self::base() == 0x1_0000_0000 ==> exists|v: Option<u32>|
                call_ensures(C::seed32, (intf,), v) && r == Self::lift32(v),
            Self::base() == 0x1_0000_0000_0000_0000 ==> exists|v: Option<u64>|
                call_ensures(C::seed64, (intf,), v) && r == Self::lift64(v),
            final(log).draws() == old(log).draws().push(Self::seed_draw(r)),
    ;

    /// The word as a generator output.
    fn to_prng_output(self) -> (r: Self::PrngOutput)
        ensures
            r.spec_widen() == self.val(),
    ;

    /// The word widened to `u64`.
    fn to_u64(self) -> (r: u64)
        ensures
            r == self.val(),
    ;

    /// `v` modulo [`MwcWord::base`] as a word.
    fn from_u64(v: u64) -> (r: Self)
        ensures
            r.val() == (v as nat) % Self::base(),
    ;

    /// The word 0.
    fn zero() -> (r: Self)
        ensures
            r.val() == 0,
    ;

    /// The word 1.
    fn one() -> (r: Self)
        ensures
            r.val() == 1,
    ;

    /// The word 2.
    fn two() -> (r: Self)
        ensures
            r.val() == 2,
    ;

    /// Whether the word is 0.
    fn is_zero(self) -> (r: bool)
        ensures
            r == (self.val() == 0),
    ;

    /// The sum modulo [`MwcWord::base`].
    fn wrapping_add(self, other: Self) -> (r: Self)
        ensures
            r.val() == (self.val() + other.val()) % Self::base(),
    ;

    /// The difference modulo [`MwcWord::base`].
    fn wrapping_sub(self, other: Self) -> (r: Self)
        ensures
            r.val() == (self.val() + Self::base() - other.val()) % (Self::base() as int),
    ;

    /// The word shifted left by one bit (the top bit is lost).
    fn shl1(self) -> (r: Self)
        ensures
            r.val() == (2 * self.val()) % Self::base(),
    ;

    /// The top bit of the word.
    fn top_bit(self) -> (r: Self)
        ensures
            r.val() == self.val() / (Self::base() / 2),
    ;

    /// Subtracts `b` from `a` modulo the base; returns the borrow (1 when
    /// `b` exceeded `a`, else 0).
    fn sub_with_borrow(a: &mut Self, b: Self) -> (borrow: Self)
        ensures
            final(a).val() == (old(a).val() + Self::base() - b.val()) % (Self::base() as int),
            borrow.val() == (if old(a).val() < b.val() { 1nat } else { 0nat }),
    ;

    /// Adds `b` to `a` modulo the base; returns the carry.
    fn add_with_carry(a: &mut Self, b: Self) -> (carry: Self)
        ensures
            final(a).val() + carry.val() * Self::base() == old(a).val() + b.val(),
    ;

    /// `a * x + c` as a high and a low word.
    fn umuladd(a: Self, x: Self, c: Self) -> (r: (Self, Self))
        ensures
            r.0.val() * Self::base() + r.1.val() == a.val() * x.val() + c.val(),
    ;

    /// The output scrambler.
    fn scramble(x: Self) -> (r: Self)
        ensures
            r == x.spec_scramble(),
    ;
}

impl MwcWord for u32 {
    type PrngOutput = u32;

    open spec fn val(self) -> nat {
        self as nat
    }

    open spec fn base() -> nat {
        0x1_0000_0000
    }

    open spec fn from_val(v: nat) -> Self {
        (v % 0x1_0000_0000) as u32
    }

    open spec fn spec_scramble(self) -> Self {
        self ^ ((self >> 11u32) | (self << 21u32)) ^ ((self >> 27u32) | (self << 5u32))
    }

    proof fn lemma_word(w: Self) {
    }

    proof fn lemma_from_val(v: nat) {
    }

    fn bits() -> (r: u32) {
        32
    }

    open spec fn lift32(v: Option<u32>) -> Option<Self> {
        v
    }

    open spec fn lift64(v: Option<u64>) -> Option<Self> {
        match v {
            Some(w) => Some(w as u32),
            None => None,
        }
    }

    fn from_seed<C: SeedSource>(intf: &C) -> (r: Option<Self>) {
        let r = intf.seed32();
        assert(call_ensures(C::seed32, (intf,), r) && r == Self::lift32(r));
        r
    }

    open spec fn seed_draw(r: Option<Self>) -> SeedDraw {
        SeedDraw::Bits32(r)
    }

    fn draw_seed<C: SeedSource>(intf: &C, log: &mut SeedLog) -> (r: Option<Self>) {
        let r = draw32(intf, log);
        assert(call_ensures(C::seed32, (intf,), r) && r == Self::lift32(r));
        r
    }

    fn to_prng_output(self) -> (r: u32) {
        assert(self.spec_widen() == self as u64);
        self
    }

    fn to_u64(self) -> (r: u64) {
        self as u64
    }

    fn from_u64(v: u64) -> (r: Self) {
        assert((v as u32) as int == v % 0x1_0000_0000) by (bit_vector);
        v as u32
    }

    fn zero() -> (r: Self) {
        0
    }

    fn one() -> (r: Self) {
        1
    }

    fn two() -> (r: Self) {
        2
    }

    fn is_zero(self) -> (r: bool) {
        self == 0
    }

    fn wrapping_add(self, other: Self) -> (r: Self) {
        self.wrapping_add(other)
    }

    fn wrapping_sub(self, other: Self) -> (r: Self) {
        self.wrapping_sub(other)
    }

    fn shl1(self) -> (r: Self) {
        let r = self << 1u32;
        assert(r as int == (2 * self as int) % 0x1_0000_0000) by (bit_vector)
            requires
                r == self << 1u32,
        ;
        r
    }

    fn top_bit(self) -> (r: Self) {
        let r = self >> 31u32;
        assert(r == self / 0x8000_0000u32) by (bit_vector)
            requires
                r == self >> 31u32,
        ;
        r
    }

    fn sub_with_borrow(a: &mut Self, b: Self) -> (borrow: Self) {
        let t = (*a).wrapping_sub(b);
        let borrow = if t > *a {
            1
        } else {
            0
        };
        *a = t;
        borrow
    }

    fn add_with_carry(a: &mut Self, b: Self) -> (carry: Self) {
        let t = (*a).wrapping_add(b);
        let carry = if t < *a {
            1
        } else {
            0
        };
        *a = t;
        carry
    }

    fn umuladd(a: Self, x: Self, c: Self) -> (r: (Self, Self)) {
        assert((a as u64) * (x as u64) + (c as u64) <= 0xFFFF_FFFF_FFFF_FFFF) by (nonlinear_arith)
            requires
                a <= 0xFFFF_FFFFu32,
                x <= 0xFFFF_FFFFu32,
                c <= 0xFFFF_FFFFu32,
        ;
        let product = (a as u64) * (x as u64) + (c as u64);
        let hi = (product >> 32u32) as u32;
        let lo = product as u32;
        assert(hi as int * 0x1_0000_0000 + lo as int == product as int) by (bit_vector)
            requires
                hi == (product >> 32u32) as u32,
                lo == product as u32,
        ;
        (hi, lo)
    }

    fn scramble(x: Self) -> (r: Self) {
        x ^ ((x >> 11u32) | (x << 21u32)) ^ ((x >> 27u32) | (x << 5u32))
    }
}

impl MwcWord for u64 {
    type PrngOutput = u64;

    open spec fn val(self) -> nat {
        self as nat
    }

    open spec fn base() -> nat {
        0x1_0000_0000_0000_0000
    }

    open spec fn from_val(v: nat) -> Self {
        (v % 0x1_0000_0000_0000_0000) as u64
    }

    open spec fn spec_scramble(self) -> Self {
        self ^ ((self >> 17u64) | (self << 47u64)) ^ ((self >> 53u64) | (self << 11u64))
    }

    proof fn lemma_word(w: Self) {
    }

    proof fn lemma_from_val(v: nat) {
    }

    fn bits() -> (r: u32) {
        64
    }

    open spec fn lift32(v: Option<u32>) -> Option<Self> {
        match v {
            Some(w) => Some(w as u64),
            None => None,
        }
    }

    open spec fn lift64(v: Option<u64>) -> Option<Self> {
        v
    }

    fn from_seed<C: SeedSource>(intf: &C) -> (r: Option<Self>) {
        let r = intf.seed64();
        assert(call_ensures(C::seed64, (intf,), r) && r == Self::lift64(r));
        r
    }

    open spec fn seed_draw(r: Option<Self>) -> SeedDraw {
        SeedDraw::Bits64(r)
    }

    fn draw_seed<C: SeedSource>(intf: &C, log: &mut SeedLog) -> (r: Option<Self>) {
        let r = draw64(intf, log);
        assert(call_ensures(C::seed64, (intf,), r) && r == Self::lift64(r));
        r
    }

    fn to_prng_output(self) -> (r: u64) {
        assert(self.spec_widen() == self);
        self
    }

    fn to_u64(self) -> (r: u64) {
        self
    }

    fn from_u64(v: u64) -> (r: Self) {
        v
    }

    fn zero() -> (r: Self) {
        0
    }

    fn one() -> (r: Self) {
        1
    }

    fn two() -> (r: Self) {
        2
    }

    fn is_zero(self) -> (r: bool) {
        self == 0
    }

    fn wrapping_add(self, other: Self) -> (r: Self) {
        self.wrapping_add(other)
    }

    fn wrapping_sub(self, other: Self) -> (r: Self) {
        self.wrapping_sub(other)
    }

    fn shl1(self) -> (r: Self) {
        let r = self << 1u64;
        assert(r as int == (2 * self as int) % 0x1_0000_0000_0000_0000) by (bit_vector)
            requires
                r == self << 1u64,
        ;
        r
    }

    fn top_bit(self) -> (r: Self) {
        let r = self >> 63u64;
        assert(r == self / 0x8000_0000_0000_0000u64) by (bit_vector)
            requires
                r == self >> 63u64,
        ;
        r
    }

    fn sub_with_borrow(a: &mut Self, b: Self) -> (borrow: Self) {
        let t = (*a).wrapping_sub(b);
        let borrow = if t > *a {
            1
        } else {
            0
        };
        *a = t;
        borrow
    }

    fn add_with_carry(a: &mut Self, b: Self) -> (carry: Self) {
        let t = (*a).wrapping_add(b);
        let carry = if t < *a {
            1
        } else {
            0
        };
        *a = t;
        carry
    }

    fn umuladd(a: Self, x: Self, c: Self) -> (r: (Self, Self)) {
        assert((a as u128) * (x as u128) + (c as u128) <= 0xFFFF_FFFF_FFFF_FFFF_FFFF_FFFF_FFFF_FFFF)
            by (nonlinear_arith)
            requires
                a <= 0xFFFF_FFFF_FFFF_FFFFu64,
                x <= 0xFFFF_FFFF_FFFF_FFFFu64,
                c <= 0xFFFF_FFFF_FFFF_FFFFu64,
        ;
        let product = (a as u128) * (x as u128) + (c as u128);
        let hi = (product >> 64u32) as u64;
        let lo = product as u64;
        assert(hi as int * 0x1_0000_0000_0000_0000 + lo as int == product as int) by (bit_vector)
            requires
                hi == (product >> 64u32) as u64,
                lo == product as u64,
        ;
        (hi, lo)
    }

    fn scramble(x: Self) -> (r: Self) {
        x ^ ((x >> 17u64) | (x << 47u64)) ^ ((x >> 53u64) | (x << 11u64))
    }
}


/// Whether `r` is an outcome of drawing one seed word from `intf`: a
/// 32-bit seed for 32-bit words, a 64-bit seed for 64-bit words.
pub open spec fn word_seed_outcome<W: MwcWord, C: SeedSource>(intf: &C, r: Option<W>) -> bool {
    &&& W::base() == 0x1_0000_0000 ==> exists|v: Option<u32>|
        call_ensures(C::seed32, (intf,), v) && r == W::lift32(v)
    &&& W::base() == 0x1_0000_0000_0000_0000 ==> exists|v: Option<u64>|
        call_ensures(C::seed64, (intf,), v) && r == W::lift64(v)
}

/// The records of drawing the seeds that gave the words `ws`, in order.
pub open spec fn seed_draws<W: MwcWord>(ws: Seq<W>) -> Seq<SeedDraw> {
    Seq::new(ws.len(), |i: int| W::seed_draw(Some(ws[i])))
}

/// `b` to the `n`th power.
pub open spec fn wpow(b: nat, n: nat) -> nat
    decreases n,
{
    if n == 0 {
        1
    } else {
        b * wpow(b, (n - 1) as nat)
    }
}

/// The number whose base-[`MwcWord::base`] digits are `s`, least
/// significant first.
pub open spec fn seq_value<W: MwcWord>(s: Seq<W>) -> nat
    decreases s.len(),
{
    if s.len() == 0 {
        0
    } else {
        seq_value(s.drop_last()) + s.last().val() * wpow(W::base(), (s.len() - 1) as nat)
    }
}

proof fn lemma_wpow_at_least_square(b: nat, n: nat)
    requires
        b >= 1,
        n >= 2,
    ensures
        wpow(b, n) >= b * b,
    decreases n,
{
    if n == 2 {
        let w0 = wpow(b, 0);
        let w1 = wpow(b, 1);
        assert(w0 == 1);
        assert(w1 == b * w0);
        assert(w1 == b) by (nonlinear_arith)
            requires
                w1 == b * w0,
                w0 == 1,
        ;
        assert(wpow(b, 2) == b * w1);
    } else {
        lemma_wpow_at_least_square(b, (n - 1) as nat);
        assert(b * wpow(b, (n - 1) as nat) >= b * b) by (nonlinear_arith)
            requires
                b >= 1,
                wpow(b, (n - 1) as nat) >= b * b,
        ;
    }
}

/// The first `i + 1` digits are the first `i` and the digit `i`.
proof fn lemma_seq_value_take<W: MwcWord>(s: Seq<W>, i: int)
    requires
        0 <= i < s.len(),
    ensures
        seq_value(s.take(i + 1)) == seq_value(s.take(i)) + s[i].val() * wpow(W::base(), i as nat),
{
    assert(s.take(i + 1).drop_last() =~= s.take(i));
    assert(s.take(i + 1).last() == s[i]);
}

/// A number of `n` digits lies below `base^n`.
proof fn lemma_seq_value_bound<W: MwcWord>(s: Seq<W>)
    ensures
        seq_value(s) < wpow(W::base(), s.len()),
    decreases s.len(),
{
    if s.len() > 0 {
        let n = (s.len() - 1) as nat;
        let b = W::base();
        lemma_seq_value_bound(s.drop_last());
        W::lemma_word(s.last());
        let d = s.last().val();
        let p = wpow(b, n);
        assert(seq_value(s.drop_last()) + d * p < b * p) by (nonlinear_arith)
            requires
                seq_value(s.drop_last()) < p,
                d < b,
        ;
    } else {
    }
}

/// Two numbers of the same length with the same value have the same
/// digits.
proof fn lemma_seq_value_unique<W: MwcWord>(s: Seq<W>, t: Seq<W>)
    requires
        s.len() == t.len(),
        seq_value(s) == seq_value(t),
    ensures
        s == t,
    decreases s.len(),
{
    if s.len() > 0 {
        let n = (s.len() - 1) as nat;
        let p = wpow(W::base(), n);
        lemma_seq_value_bound(s.drop_last());
        lemma_seq_value_bound(t.drop_last());
        W::lemma_word(s.last());
        W::lemma_word(t.last());
        vstd::arithmetic::div_mod::lemma_fundamental_div_mod_converse(
            seq_value(s) as int,
            p as int,
            s.last().val() as int,
            seq_value(s.drop_last()) as int,
        );
        vstd::arithmetic::div_mod::lemma_fundamental_div_mod_converse(
            seq_value(t) as int,
            p as int,
            t.last().val() as int,
            seq_value(t.drop_last()) as int,
        );
        lemma_seq_value_unique(s.drop_last(), t.drop_last());
        assert(W::from_val(s.last().val()) == W::from_val(t.last().val()));
        assert(s =~= s.drop_last().push(s.last()));
        assert(t =~= t.drop_last().push(t.last()));
    } else {
        assert(s =~= t);
    }
}


proof fn lemma_wpow_add(b: nat, m: nat, n: nat)
    ensures
        wpow(b, m + n) == wpow(b, m) * wpow(b, n),
    decreases m,
{
    if m > 0 {
        lemma_wpow_add(b, (m - 1) as nat, n);
        assert((m - 1) as nat + n == (m + n - 1) as nat);
        assert(wpow(b, m + n) == b * wpow(b, (m + n - 1) as nat));
        assert(b * (wpow(b, (m - 1) as nat) * wpow(b, n)) == (b * wpow(b, (m - 1) as nat)) * wpow(b, n))
            by (nonlinear_arith);
    } else {
        assert(wpow(b, 0) == 1);
        assert(1 * wpow(b, n) == wpow(b, n));
    }
}

/// The number of `s` is its first `i` digits plus `base^i` times the rest.
proof fn lemma_seq_value_split<W: MwcWord>(s: Seq<W>, i: int)
    requires
        0 <= i <= s.len(),
    ensures
        seq_value(s) == seq_value(s.take(i)) + wpow(W::base(), i as nat) * seq_value(s.skip(i)),
    decreases s.len(),
{
    let b = W::base();
    if i == s.len() {
        assert(s.take(i) =~= s);
        assert(s.skip(i) =~= Seq::<W>::empty());
        assert(seq_value(s.skip(i)) == 0);
        assert(wpow(b, i as nat) * 0 == 0) by (nonlinear_arith);
    } else {
        let n = s.len();
        let t = s.drop_last();
        lemma_seq_value_split(t, i);
        assert(t.take(i) =~= s.take(i));
        let rest = s.skip(i);
        assert(rest.drop_last() =~= t.skip(i));
        assert(rest.last() == s.last());
        assert(rest.len() == n - i);
        lemma_wpow_add(b, i as nat, (n - 1 - i) as nat);
        assert(i as nat + (n - 1 - i) as nat == (n - 1) as nat);
        let p = wpow(b, i as nat);
        let q = wpow(b, (n - 1 - i) as nat);
        assert(seq_value(rest) == seq_value(t.skip(i)) + s.last().val() * q);
        assert(p * (seq_value(t.skip(i)) + s.last().val() * q) == p * seq_value(t.skip(i)) + s.last().val() * (p * q))
            by (nonlinear_arith);
    }
}

/// Digit `i` of the number held by `xs` and `e` is `xs[i]`.
proof fn lemma_digit<W: MwcWord>(xs: Seq<W>, e: W, i: int)
    requires
        0 <= i < xs.len(),
    ensures
        xs[i].val() == (full_value(xs, e) / wpow(W::base(), i as nat)) % W::base(),
{
    let b = W::base();
    let n = xs.len();
    W::lemma_word(xs[i]);
    W::lemma_word(e);
    lemma_seq_value_split(xs, i);
    let rest = xs.skip(i);
    lemma_seq_value_split(rest, 1);
    assert(rest.take(1) =~= seq![xs[i]]);
    assert(seq_value(seq![xs[i]]) == seq_value(seq![xs[i]].drop_last()) + xs[i].val() * wpow(b, 0));
    assert(seq![xs[i]].drop_last() =~= Seq::<W>::empty());
    assert(wpow(b, 0) == 1);
    assert(wpow(b, 1) == b * wpow(b, 0));
    lemma_seq_value_bound(xs.take(i));
    lemma_wpow_add(b, i as nat, (n - i) as nat);
    assert(i as nat + (n - i) as nat == n);
    lemma_wpow_add(b, 1, (n - i - 1) as nat);
    assert(1 + (n - i - 1) as nat == (n - i) as nat);
    let p = wpow(b, i as nat);
    let lo = seq_value(xs.take(i));
    let hi = seq_value(rest.skip(1)) + e.val() * wpow(b, (n - i - 1) as nat);
    // full = lo + p * (xs[i] + b * hi)
    let xi = xs[i].val();
    let ev = e.val();
    let sr = seq_value(rest);
    let srest = seq_value(rest.skip(1));
    let wn = wpow(b, n);
    let wni = wpow(b, (n - i) as nat);
    let wni1 = wpow(b, (n - i - 1) as nat);
    let w1 = wpow(b, 1);
    assert(sr == xi + b * srest) by (nonlinear_arith)
        requires
            sr == xi * 1 + w1 * srest,
            w1 == b,
    ;
    assert(ev * wn == p * (b * (ev * wni1))) by (nonlinear_arith)
        requires
            wn == p * wni,
            wni == b * wni1,
    ;
    assert(p * sr + p * (b * (ev * wni1)) == p * (xi + b * hi)) by (nonlinear_arith)
        requires
            sr == xi + b * srest,
            hi == srest + ev * wni1,
    ;
    assert(full_value(xs, e) == lo + p * (xi + b * hi));
    assert(p > 0) by {
        lemma_wpow_at_least_one(b, i as nat);
    }
    let q = xs[i].val() + b * hi;
    assert(full_value(xs, e) == q * p + lo) by (nonlinear_arith)
        requires
            full_value(xs, e) == lo + p * q,
    ;
    assert(q == hi * b + xs[i].val()) by (nonlinear_arith)
        requires
            q == xs[i].val() + b * hi,
    ;
    assert(xs.take(i).len() == i);
    vstd::arithmetic::div_mod::lemma_fundamental_div_mod_converse(
        full_value(xs, e) as int, p as int, q as int, lo as int);
    vstd::arithmetic::div_mod::lemma_fundamental_div_mod_converse(
        q as int, b as int, hi as int, xs[i].val() as int);
}

proof fn lemma_wpow_at_least_one(b: nat, n: nat)
    requires
        b >= 1,
    ensures
        wpow(b, n) >= 1,
    decreases n,
{
    if n > 0 {
        lemma_wpow_at_least_one(b, (n - 1) as nat);
        assert(b * wpow(b, (n - 1) as nat) >= 1) by (nonlinear_arith)
            requires
                b >= 1,
                wpow(b, (n - 1) as nat) >= 1,
        ;
    }
}

/// The number held by the digits `xs` and the extra digit `e` above them.
pub open spec fn full_value<W: MwcWord>(xs: Seq<W>, e: W) -> nat {
    seq_value(xs) + e.val() * wpow(W::base(), xs.len())
}

/// The base of the generator's arithmetic for `lag` words: `base^lag + 2`.
pub open spec fn mwc_modulus<W: MwcWord>(lag: nat) -> nat {
    wpow(W::base(), lag) + 2
}

/// `2 * h` is its low word plus its top bit one word up.
proof fn lemma_double_split(h: nat, b: nat)
    requires
        h < b,
        b >= 2,
        b % 2 == 0,
    ensures
        2 * h == (2 * h) % b + (h / (b / 2)) * b,
        h / (b / 2) <= 1,
{
    let half = b / 2;
    vstd::arithmetic::div_mod::lemma_fundamental_div_mod(h as int, half as int);
    let q = h / half;
    let r = h % half;
    vstd::arithmetic::div_mod::lemma_fundamental_div_mod(b as int, 2);
    assert(b == 2 * half);
    assert(q <= 1) by (nonlinear_arith)
        requires
            h == half * q + r,
            h < b,
            b == 2 * half,
            0 <= r,
            half > 0,
    ;
    assert(2 * h == q * b + 2 * r) by (nonlinear_arith)
        requires
            h == half * q + r,
            b == 2 * half,
    ;
    assert(2 * r < b);
    vstd::arithmetic::div_mod::lemma_fundamental_div_mod_converse(
        (2 * h) as int,
        b as int,
        q as int,
        (2 * r) as int,
    );
}

/// The first loop of a block: `a * X + c` word by word.
proof fn lemma_mul_step<W: MwcWord>(
    a: nat,
    old_xs: Seq<W>,
    xs: Seq<W>,
    new_xs: Seq<W>,
    i: int,
    c0: nat,
    carry: nat,
    hi: nat,
    lo: nat,
)
    requires
        0 <= i < old_xs.len(),
        xs.len() == old_xs.len(),
        new_xs == xs.update(i, W::from_val(lo)),
        lo < W::base(),
        xs[i] == old_xs[i],
        a * seq_value(old_xs.take(i)) + c0 == seq_value(xs.take(i)) + carry * wpow(W::base(), i as nat),
        hi * W::base() + lo == a * old_xs[i].val() + carry,
    ensures
        a * seq_value(old_xs.take(i + 1)) + c0 == seq_value(new_xs.take(i + 1)) + hi * wpow(
            W::base(),
            (i + 1) as nat,
        ),
{
    let b = W::base();
    let p = wpow(b, i as nat);
    lemma_seq_value_take(old_xs, i);
    lemma_seq_value_take(new_xs, i);
    assert(new_xs.take(i) =~= xs.take(i));
    W::lemma_from_val(lo);
    assert(wpow(b, (i + 1) as nat) == b * p);
    let d = old_xs[i].val();
    assert(a * (seq_value(old_xs.take(i)) + d * p) + c0 == seq_value(xs.take(i)) + lo * p + hi * (b
        * p)) by (nonlinear_arith)
        requires
            a * seq_value(old_xs.take(i)) + c0 == seq_value(xs.take(i)) + carry * p,
            hi * b + lo == a * d + carry,
    ;
}

/// The borrow loop of a block, one digit at a time.
proof fn lemma_sub_step<W: MwcWord>(
    l: Seq<W>,
    xs: Seq<W>,
    new_xs: Seq<W>,
    j: int,
    sub: nat,
    borrow: nat,
    nb: nat,
    nv: nat,
)
    requires
        0 <= j < l.len(),
        xs.len() == l.len(),
        xs[j] == l[j],
        new_xs == xs.update(j, W::from_val(nv)),
        nv < W::base(),
        borrow < W::base(),
        nv == (l[j].val() + W::base() - borrow) % (W::base() as int),
        nb == (if l[j].val() < borrow { 1nat } else { 0nat }),
        seq_value(xs.take(j)) + sub == seq_value(l.take(j)) + borrow * wpow(W::base(), j as nat),
    ensures
        seq_value(new_xs.take(j + 1)) + sub == seq_value(l.take(j + 1)) + nb * wpow(
            W::base(),
            (j + 1) as nat,
        ),
{
    let b = W::base();
    let p = wpow(b, j as nat);
    W::lemma_word(l[j]);
    W::lemma_from_val(nv);
    lemma_seq_value_take(l, j);
    lemma_seq_value_take(new_xs, j);
    assert(new_xs.take(j) =~= xs.take(j));
    assert(wpow(b, (j + 1) as nat) == b * p);
    let d = l[j].val();
    if d < borrow {
        vstd::arithmetic::div_mod::lemma_fundamental_div_mod_converse(
            (d + b - borrow) as int,
            b as int,
            0,
            (d + b - borrow) as int,
        );
        assert(nv == d + b - borrow);
    } else {
        vstd::arithmetic::div_mod::lemma_fundamental_div_mod_converse(
            (d + b - borrow) as int,
            b as int,
            1,
            (d - borrow) as int,
        );
        assert(nv == d - borrow);
    }
    assert(seq_value(xs.take(j)) + nv * p + sub == seq_value(l.take(j)) + d * p + nb * (b * p))
        by (nonlinear_arith)
        requires
            seq_value(xs.take(j)) + sub == seq_value(l.take(j)) + borrow * p,
            nv + borrow == d + nb * b,
    ;
}

/// The carry loop of a block, one digit at a time.
proof fn lemma_add_step<W: MwcWord>(
    xs: Seq<W>,
    ys: Seq<W>,
    new_ys: Seq<W>,
    i: int,
    add: nat,
    carry: nat,
    nc: nat,
    nv: nat,
)
    requires
        0 <= i < xs.len(),
        ys.len() == xs.len(),
        ys[i] == xs[i],
        new_ys == ys.update(i, W::from_val(nv)),
        nv < W::base(),
        nv + nc * W::base() == xs[i].val() + carry,
        seq_value(ys.take(i)) + carry * wpow(W::base(), i as nat) == seq_value(xs.take(i)) + add,
    ensures
        seq_value(new_ys.take(i + 1)) + nc * wpow(W::base(), (i + 1) as nat) == seq_value(
            xs.take(i + 1),
        ) + add,
{
    let b = W::base();
    let p = wpow(b, i as nat);
    W::lemma_from_val(nv);
    lemma_seq_value_take(xs, i);
    lemma_seq_value_take(new_ys, i);
    assert(new_ys.take(i) =~= ys.take(i));
    assert(wpow(b, (i + 1) as nat) == b * p);
    let d = xs[i].val();
    assert(seq_value(ys.take(i)) + nv * p + nc * (b * p) == seq_value(xs.take(i)) + d * p + add)
        by (nonlinear_arith)
        requires
            seq_value(ys.take(i)) + carry * p == seq_value(xs.take(i)) + add,
            nv + nc * b == d + carry,
    ;
}


/// One block of the generator: with `U = mul * X + c`, where `X` is the
/// number held by `x` and `x_extra`, the new number is `U mod B` and the
/// new carry `U div B`, for `B = base^LAG + 2`.
fn mwc_block<W: MwcWord, const LAG: usize>(mul: W, x: [W; LAG], x_extra: W, c: W) -> (r: (
    [W; LAG],
    W,
    W,
))
    requires
        2 <= LAG,
    ensures
        (2 <= mul.val() && full_value(x@, x_extra) < mwc_modulus::<W>(LAG as nat) && c.val()
            < mul.val()) ==> {
            &&& full_value(r.0@, r.1) == (mul.val() * full_value(x@, x_extra) + c.val())
                % mwc_modulus::<W>(LAG as nat)
            &&& r.2.val() == (mul.val() * full_value(x@, x_extra) + c.val()) / mwc_modulus::<W>(
                LAG as nat,
            )
        },
{
    let ghost b = W::base();
    let ghost bk = wpow(b, LAG as nat);
    let ghost a = mul.val();
    let ghost big_b = mwc_modulus::<W>(LAG as nat);
    let ghost xs0 = x@;
    let ghost u = a * full_value(x@, x_extra) + c.val();
    let ghost pre = 2 <= a && full_value(x@, x_extra) < big_b && c.val() < a;
    proof {
        W::lemma_word(mul);
        W::lemma_word(c);
        W::lemma_word(x_extra);
        lemma_wpow_at_least_square(b, LAG as nat);
        assert(b * b > 2 * a) by (nonlinear_arith)
            requires
                a < b,
                b >= 4,
        ;
    }
    let mut x = x;
    // U = a * X + c, word by word.
    let mut carry = c;
    let mut i: usize = 0;
    proof {
        assert(xs0.take(0) =~= Seq::<W>::empty());
        assert(x@.take(0) =~= Seq::<W>::empty());
        assert(wpow(b, 0) == 1);
        assert(seq_value(xs0.take(0)) == 0);
        assert(seq_value(x@.take(0)) == 0);
        assert(a * seq_value(xs0.take(0)) == 0);
        assert(carry.val() * wpow(b, 0) == carry.val());
    }
    while i < LAG
        invariant
            i <= LAG,
            x@.len() == LAG,
            xs0.len() == LAG,
            forall|j: int| i <= j < LAG ==> x@[j] == xs0[j],
            a * seq_value(xs0.take(i as int)) + c.val() == seq_value(x@.take(i as int))
                + carry.val() * wpow(b, i as nat),
            a == mul.val(),
            b == W::base(),
        decreases LAG - i,
    {
        let (hi, lo) = W::umuladd(mul, x[i], carry);
        proof {
            W::lemma_word(lo);
            lemma_mul_step(a, xs0, x@, x@.update(i as int, W::from_val(lo.val())), i as int,
                c.val(), carry.val(), hi.val(), lo.val());
        }
        x[i] = lo;
        carry = hi;
        i = i + 1;
    }
    let ghost l = x@;
    proof {
        assert(xs0.take(LAG as int) =~= xs0);
        assert(x@.take(LAG as int) =~= x@);
        lemma_seq_value_bound(l);
        lemma_seq_value_bound(xs0);
    }
    // The top word of U: H = mul * x_extra + carry.
    let (over, h) = W::umuladd(mul, x_extra, carry);
    let ghost hv = a * x_extra.val() + carry.val();
    proof {
        W::lemma_word(h);
        W::lemma_word(over);
        assert(u == seq_value(l) + hv * bk) by (nonlinear_arith)
            requires
                a * seq_value(xs0) + c.val() == seq_value(l) + carry.val() * bk,
                u == a * (seq_value(xs0) + x_extra.val() * bk) + c.val(),
                hv == a * x_extra.val() + carry.val(),
        ;
        if pre {
            assert(u < a * big_b) by (nonlinear_arith)
                requires
                    u == a * (seq_value(xs0) + x_extra.val() * bk) + c.val(),
                    seq_value(xs0) + x_extra.val() * bk < big_b,
                    c.val() < a,
            ;
            assert(hv <= a) by (nonlinear_arith)
                requires
                    u == seq_value(l) + hv * bk,
                    u < a * big_b,
                    big_b == bk + 2,
                    bk >= b * b,
                    b * b > 2 * a,
            ;
            assert(over.val() == 0 && h.val() == hv) by (nonlinear_arith)
                requires
                    over.val() * b + h.val() == hv,
                    hv <= a,
                    a < b,
                    h.val() < b,
            ;
        }
    }
    // Subtract 2H from the low words: U = H * B + (L - 2H).
    let ghost hh = h.val();
    let mut t = x[0];
    let b0 = W::sub_with_borrow(&mut t, h.shl1());
    proof {
        W::lemma_word(t);
        lemma_double_split(hh, b);
        assert(x@.take(0) =~= Seq::<W>::empty());
        assert(wpow(b, 0) == 1);
        lemma_sub_step(l, x@, x@.update(0, W::from_val(t.val())), 0, (2 * hh) % b, (2 * hh) % b,
            b0.val(), t.val());
    }
    x[0] = t;
    let top = h.top_bit();
    let s1 = top.wrapping_add(b0);
    let mut t1 = x[1];
    proof {
        W::lemma_from_val(t.val());
        assert(s1.val() == top.val() + b0.val()) by {
            vstd::arithmetic::div_mod::lemma_small_mod((top.val() + b0.val()) as nat, b);
        }
    }
    let mut borrow = W::sub_with_borrow(&mut t1, s1);
    proof {
        W::lemma_word(t1);
        assert(seq_value(x@.take(1)) + (2 * hh) % b == seq_value(l.take(1)) + b0.val() * wpow(b, 1));
        assert(wpow(b, 1) == b * wpow(b, 0));
        assert(wpow(b, 1) == b);
        let v1 = seq_value(x@.take(1));
        let l1 = seq_value(l.take(1));
        assert(v1 + (2 * hh) % b == l1 + b0.val() * b);
        let s0 = (2 * hh) % b;
        let tv = top.val();
        let bv = b0.val();
        let sv = s1.val();
        assert(v1 + s0 == l1 + bv * b);
        assert(2 * hh == s0 + tv * b);
        assert(v1 + 2 * hh == l1 + sv * b) by (nonlinear_arith)
            requires
                v1 + s0 == l1 + bv * b,
                2 * hh == s0 + tv * b,
                sv == tv + bv,
        ;
        lemma_sub_step(l, x@, x@.update(1, W::from_val(t1.val())), 1, 2 * hh, s1.val(),
            borrow.val(), t1.val());
    }
    x[1] = t1;
    let mut j: usize = 2;
    while j < LAG
        invariant
            2 <= j <= LAG,
            x@.len() == LAG,
            l.len() == LAG,
            forall|k: int| j <= k < LAG ==> x@[k] == l[k],
            seq_value(x@.take(j as int)) + 2 * hh == seq_value(l.take(j as int)) + borrow.val()
                * wpow(b, j as nat),
            borrow.val() <= 1,
            b == W::base(),
        decreases LAG - j,
    {
        let mut tj = x[j];
        let nb = W::sub_with_borrow(&mut tj, borrow);
        proof {
            W::lemma_word(tj);
            lemma_sub_step(l, x@, x@.update(j as int, W::from_val(tj.val())), j as int, 2 * hh,
                borrow.val(), nb.val(), tj.val());
        }
        x[j] = tj;
        borrow = nb;
        j = j + 1;
    }
    let ghost d = x@;
    proof {
        assert(x@.take(LAG as int) =~= x@);
        assert(l.take(LAG as int) =~= l);
        lemma_seq_value_bound(d);
        // the borrow is 1 exactly when L < 2H
        assert(borrow.val() == 1 <==> seq_value(l) < 2 * hh) by (nonlinear_arith)
            requires
                seq_value(d) + 2 * hh == seq_value(l) + borrow.val() * bk,
                seq_value(d) < bk,
                seq_value(l) < bk,
                borrow.val() <= 1,
        ;
    }
    if borrow.is_zero() {
        let zero = W::zero();
        proof {
            assert(full_value(x@, zero) == seq_value(d));
            if pre {
                assert(u == seq_value(d) + hh * big_b) by (nonlinear_arith)
                    requires
                        u == seq_value(l) + hh * bk,
                        seq_value(d) + 2 * hh == seq_value(l) + borrow.val() * bk,
                        borrow.val() == 0,
                        big_b == bk + 2,
                ;
                vstd::arithmetic::div_mod::lemma_fundamental_div_mod_converse(u as int,
                    big_b as int, hh as int, seq_value(d) as int);
            }
        }
        (x, zero, h)
    } else {
        let new_c = h.wrapping_sub(W::one());
        proof {
            vstd::arithmetic::div_mod::lemma_small_mod((hh - 1) as nat, b);
            vstd::arithmetic::div_mod::lemma_mod_multiples_vanish(1, (hh - 1) as int, b as int);
            assert(new_c.val() == hh - 1);
        }
        let mut carry = W::two();
        let mut i: usize = 0;
        proof {
            assert(x@.take(0) =~= Seq::<W>::empty());
            assert(d.take(0) =~= Seq::<W>::empty());
            assert(wpow(b, 0) == 1);
        }
        while i < LAG
            invariant
                i <= LAG,
                x@.len() == LAG,
                d.len() == LAG,
                forall|k: int| i <= k < LAG ==> x@[k] == d[k],
                seq_value(x@.take(i as int)) + carry.val() * wpow(b, i as nat) == seq_value(
                    d.take(i as int),
                ) + 2,
                b == W::base(),
            decreases LAG - i,
        {
            let mut ti = x[i];
            let nc = W::add_with_carry(&mut ti, carry);
            proof {
                W::lemma_word(ti);
                lemma_add_step(d, x@, x@.update(i as int, W::from_val(ti.val())), i as int, 2,
                    carry.val(), nc.val(), ti.val());
            }
            x[i] = ti;
            carry = nc;
            i = i + 1;
        }
        proof {
            assert(x@.take(LAG as int) =~= x@);
            assert(d.take(LAG as int) =~= d);
            let v = full_value(x@, carry);
            assert(v == seq_value(d) + 2);
            assert(seq_value(d) == seq_value(l) + bk - 2 * hh);
            if pre {
                assert(u == v + (hh - 1) * big_b) by (nonlinear_arith)
                    requires
                        u == seq_value(l) + hh * bk,
                        v == seq_value(l) + bk - 2 * hh + 2,
                        big_b == bk + 2,
                ;
                assert(v < big_b);
                vstd::arithmetic::div_mod::lemma_fundamental_div_mod_converse(u as int,
                    big_b as int, (hh - 1) as int, v as int);
            }
        }
        (x, carry, new_c)
    }
}


/// A multiply-with-carry generator with `LAG` words of type `W`, the
/// multiplier `MUL` and the base `base^LAG + 2`.
///
/// The state holds a number `X` (the `LAG` words and an extra word above
/// them) and a carry `c`. Every `LAG` outputs the generator computes a new
/// block from `(X, c)`, then returns the `LAG` low words of `X` one by one,
/// scrambled unless `RRX` is set. With `a = MUL mod base` at least 2 (see
/// [`MwcFpState::params_ok`]) the state keeps `X < B` and `c < a` for
/// `B = base^LAG + 2`, and the block replaces `(X, c)` by
/// `((a * X + c) mod B, (a * X + c) div B)`.
pub struct MwcFpState<W: MwcWord, const LAG: usize, const MUL: u64, const RRX: bool> {
    x: [W; LAG],
    x_extra: W,
    c: W,
    pos: usize,
}

impl<W: MwcWord, const LAG: usize, const MUL: u64, const RRX: bool> MwcFpState<W, LAG, MUL, RRX> {
    /// The multiplier as a word: `MUL` modulo [`MwcWord::base`].
    pub open spec fn mul() -> nat {
        MUL as nat % W::base()
    }

    /// The parameters under which the words hold a multiply-with-carry
    /// generator: at least two words and a multiplier word of at least 2.
    pub open spec fn params_ok() -> bool {
        2 <= LAG && 2 <= Self::mul()
    }

    /// `base^LAG + 2`.
    pub open spec fn modulus() -> nat {
        mwc_modulus::<W>(LAG as nat)
    }

    /// The number `X` held by the words.
    pub closed spec fn value(self) -> nat {
        full_value(self.x@, self.x_extra)
    }

    /// The carry.
    pub closed spec fn carry(self) -> nat {
        self.c.val()
    }

    /// How many words of the current block have been returned.
    pub closed spec fn position(self) -> nat {
        self.pos as nat
    }

    /// Word `i` of the state.
    pub closed spec fn word(self, i: int) -> W {
        self.x@[i]
    }

    /// The `LAG` words of the state, least significant first.
    pub closed spec fn words(self) -> Seq<W> {
        self.x@
    }

    /// The extra word above the `LAG` words.
    pub closed spec fn extra(self) -> W {
        self.x_extra
    }

    /// The number is made of the words and the extra word; the carry is
    /// the value of a word.
    pub proof fn lemma_parts(s: Self)
        ensures
            s.words().len() == LAG,
            forall|i: int| 0 <= i < LAG ==> #[trigger] s.word(i) == s.words()[i],
            s.value() == full_value(s.words(), s.extra()),
            s.carry() < W::base(),
            s.extra().val() < W::base(),
    {
        W::lemma_word(s.c);
        W::lemma_word(s.x_extra);
    }

    /// Word `i` is digit `i` of the number in base [`MwcWord::base`].
    pub proof fn lemma_word_of_value(s: Self, i: int)
        requires
            0 <= i < LAG,
        ensures
            s.word(i).val() == (s.value() / wpow(W::base(), i as nat)) % W::base(),
    {
        lemma_digit(s.x@, s.x_extra, i);
    }

    /// After one output from `s` to `t`, `t` is [`MwcFpState::stepped`].
    pub proof fn lemma_stepped(s: Self, t: Self)
        requires
            s.steps_to(t),
        ensures
            s.stepped() == t,
    {
        Self::lemma_unique(s.stepped(), t);
    }

    #[verifier::type_invariant]
    spec fn well_formed(self) -> bool {
        &&& 2 <= LAG
        &&& self.pos <= LAG
        &&& Self::params_ok() ==> self.value() < Self::modulus() && self.c.val() < Self::mul()
    }

    /// What one output does to the state: at the end of a block the next
    /// block is computed and its first word is taken; otherwise the next
    /// word is taken.
    pub open spec fn steps_to(self, t: Self) -> bool {
        let u = Self::mul() * self.value() + self.carry();
        if self.position() == LAG {
            &&& t.position() == 1
            &&& t.value() == u % Self::modulus()
            &&& t.carry() == u / Self::modulus()
        } else {
            &&& t.position() == self.position() + 1
            &&& t.value() == self.value()
            &&& t.carry() == self.carry()
        }
    }

    /// The state after one output.
    pub open spec fn stepped(self) -> Self {
        choose|t: Self| self.steps_to(t)
    }

    /// The word returned by one output.
    pub open spec fn out_word(self) -> W {
        let t = self.stepped();
        let w = t.word(t.position() - 1);
        if RRX {
            w
        } else {
            w.spec_scramble()
        }
    }

    /// A state is fixed by its number, its carry and its position.
    proof fn lemma_unique(t1: Self, t2: Self)
        requires
            t1.value() == t2.value(),
            t1.carry() == t2.carry(),
            t1.position() == t2.position(),
        ensures
            t1 == t2,
    {
        let b = W::base();
        let bk = wpow(b, LAG as nat);
        lemma_seq_value_bound(t1.x@);
        lemma_seq_value_bound(t2.x@);
        vstd::arithmetic::div_mod::lemma_fundamental_div_mod_converse(
            t1.value() as int,
            bk as int,
            t1.x_extra.val() as int,
            seq_value(t1.x@) as int,
        );
        vstd::arithmetic::div_mod::lemma_fundamental_div_mod_converse(
            t2.value() as int,
            bk as int,
            t2.x_extra.val() as int,
            seq_value(t2.x@) as int,
        );
        lemma_seq_value_unique(t1.x@, t2.x@);
        assert(t1.x =~= t2.x);
        W::lemma_word(t1.x_extra);
        W::lemma_word(t2.x_extra);
        W::lemma_word(t1.c);
        W::lemma_word(t2.c);
    }

    /// A generator seeded with one seed word per word of the state, carry
    /// 1 and the extra word 0; the first output starts a new block.
    pub fn new<C: SeedSource>(intf: &C) -> (r: Option<Self>)
        requires
            2 <= LAG,
        ensures
            r matches Some(s) ==> s.carry() == 1 && s.position() == LAG && s.extra().val() == 0,
            r matches Some(s) ==> forall|i: int|
                0 <= i < LAG ==> word_seed_outcome::<W, C>(intf, Some(#[trigger] s.word(i))),
            r is None ==> word_seed_outcome::<W, C>(intf, None),
    {
        let mut log = SeedLog::new();
        Self::new_recorded(intf, &mut log)
    }

    /// A generator seeded from `intf` as [`MwcFpState::new`] does, each
    /// seed recorded in `log`: word `i` of the state is the `i`-th seed
    /// drawn, one fresh seed per word, in order. `None` when a seed is
    /// refused; no seed is drawn after that.
    pub fn new_recorded<C: SeedSource>(intf: &C, log: &mut SeedLog) -> (r: Option<Self>)
        requires
            2 <= LAG,
        ensures
            r matches Some(s) ==> s.carry() == 1 && s.position() == LAG && s.extra().val() == 0,
            r matches Some(s) ==> forall|i: int|
                0 <= i < LAG ==> word_seed_outcome::<W, C>(intf, Some(#[trigger] s.word(i))),
            r matches Some(s) ==> final(log).draws() == old(log).draws() + Seq::new(
                LAG as nat,
                |i: int| W::seed_draw(Some(s.word(i))),
            ),
            r is None ==> word_seed_outcome::<W, C>(intf, None),
            r is None ==> exists|ws: Seq<W>|
                ws.len() < LAG && final(log).draws() == old(log).draws() + seed_draws::<W>(ws).push(
                    W::seed_draw(None),
                ),
    {
        let ghost start = log.draws();
        let mut x = [W::zero(); LAG];
        let mut i: usize = 0;
        while i < LAG
            invariant
                i <= LAG,
                x@.len() == LAG,
                forall|j: int| 0 <= j < i ==> word_seed_outcome::<W, C>(intf, Some(#[trigger] x@[j])),
                start == old(log).draws(),
                log.draws() == start + seed_draws::<W>(x@.subrange(0, i as int)),
            decreases LAG - i,
        {
            let ghost before = x@.subrange(0, i as int);
            match W::draw_seed(intf, log) {
                Some(w) => {
                    x[i] = w;
                    assert(x@.subrange(0, i + 1) == before.push(w));
                    assert(seed_draws::<W>(x@.subrange(0, i + 1))
                        == seed_draws::<W>(before).push(
                        W::seed_draw(Some(w)),
                    ));
                },
                None => {
                    assert(before.len() < LAG);
                    assert(log.draws() == start + seed_draws::<W>(before).push(
                        W::seed_draw(None),
                    ));
                    return None;
                },
            }
            i = i + 1;
        }
        let one = W::one();
        proof {
            W::lemma_word(one);
            assert(x@.subrange(0, LAG as int) == x@);
        }
        match Self::from_words(x, one) {
            Some(s) => {
                assert(Seq::new(LAG as nat, |i: int| W::seed_draw(Some(s.word(i))))
                    == seed_draws::<W>(x@));
                Some(s)
            },
            None => {
                assert(false);
                None
            },
        }
    }

    /// A generator whose words are `x`, extra word 0 and carry `c`, at the
    /// end of a block. `None` when the parameters hold a multiply-with-carry
    /// generator (see [`MwcFpState::params_ok`]) and `c` is not below its
    /// multiplier, a state that generator never reaches.
    pub fn from_words(x: [W; LAG], c: W) -> (r: Option<Self>)
        requires
            2 <= LAG,
        ensures
            r is None <==> (Self::params_ok() && c.val() >= Self::mul()),
            r matches Some(s) ==> s.carry() == c.val() && s.position() == LAG && s.value()
                == seq_value(x@) && s.extra().val() == 0 && forall|i: int|
                0 <= i < LAG ==> s.word(i) == x@[i],
    {
        let m = W::from_u64(MUL).to_u64();
        if m >= 2 && c.to_u64() >= m {
            return None;
        }
        let zero = W::zero();
        proof {
            W::lemma_word(c);
            lemma_seq_value_bound(x@);
            assert(full_value(x@, zero) == seq_value(x@));
        }
        Some(MwcFpState { x, x_extra: zero, c, pos: LAG })
    }

    /// The next output: at the end of a block the next block is computed
    /// (see [`MwcFpState::steps_to`]); then the next word is returned,
    /// scrambled unless `RRX` is set.
    pub fn next_raw(&mut self) -> (r: W)
        ensures
            Self::params_ok() ==> *final(self) == old(self).stepped(),
            Self::params_ok() ==> old(self).steps_to(*final(self)),
            Self::params_ok() ==> r == old(self).out_word(),
            Self::params_ok() ==> final(self).value() < Self::modulus() && final(self).carry()
                < Self::mul(),
            final(self).position() == (if old(self).position() == LAG {
                1
            } else {
                old(self).position() + 1
            }),
            old(self).position() != LAG ==> final(self).words() == old(self).words()
                && final(self).extra() == old(self).extra() && final(self).carry() == old(
                self,
            ).carry(),
            r == (if RRX {
                final(self).word(final(self).position() - 1)
            } else {
                final(self).word(final(self).position() - 1).spec_scramble()
            }),
    {
        proof {
            use_type_invariant(&*self);
        }
        let ghost s0 = *self;
        if self.pos == LAG {
            let mul = W::from_u64(MUL);
            let ghost a = Self::mul();
            let ghost u = a * self.value() + self.carry();
            proof {
                W::lemma_word(self.c);
            }
            let (x, x_extra, c) = mwc_block(mul, self.x, self.x_extra, self.c);
            proof {
                if Self::params_ok() {
                    let big_b = Self::modulus();
                    assert(u < a * big_b) by (nonlinear_arith)
                        requires
                            u == a * s0.value() + s0.carry(),
                            s0.value() < big_b,
                            s0.carry() < a,
                    ;
                    vstd::arithmetic::div_mod::lemma_div_by_multiple_is_strongly_ordered(
                        u as int, (a * big_b) as int, a as int, big_b as int);
                    vstd::arithmetic::div_mod::lemma_div_by_multiple(a as int, big_b as int);
                    vstd::arithmetic::div_mod::lemma_mod_pos_bound(u as int, big_b as int);
                }
            }
            *self = MwcFpState { x, x_extra, c, pos: 0 };
        }
        let w = self.x[self.pos];
        let result = if RRX {
            w
        } else {
            W::scramble(w)
        };
        self.pos = self.pos + 1;
        proof {
            if Self::params_ok() {
                assert(s0.steps_to(*self));
                let t = s0.stepped();
                assert(s0.steps_to(t));
                Self::lemma_unique(t, *self);
            }
            use_type_invariant(&*self);
        }
        result
    }
}

/// The generator MWC64u32: two 32-bit words, multiplier 4291122658.
pub struct Mwc64u32 {
    inner: MwcFpState<u32, 2, 4291122658u64, false>,
}

/// The generator MWC128u64: two 64-bit words, multiplier
/// 17741297344439402706.
pub struct Mwc128u64 {
    inner: MwcFpState<u64, 2, 17741297344439402706u64, false>,
}

impl Mwc64u32 {
    /// One output moves the state to [`MwcFpState::stepped`] and returns
    /// [`MwcFpState::out_word`].
    pub proof fn lemma_step(g: Self)
        ensures
            g.spec_step().state() == g.state().stepped(),
            g.spec_output() == g.state().out_word() as u64,
    {
    }

    /// The underlying generator state.
    pub closed spec fn state(self) -> MwcFpState<u32, 2, 4291122658u64, false> {
        self.inner
    }

    /// The generator with the words `x`, carry `c`, at the end of a block;
    /// `None` unless `c` lies below the multiplier.
    pub fn from_words(x: [u32; 2], c: u32) -> (r: Option<Self>)
        ensures
            r is Some <==> c < 4291122658u32,
            r matches Some(g) ==> g.state().carry() == c && g.state().position() == 2
                && g.state().value() == seq_value(x@),
    {
        match MwcFpState::from_words(x, c) {
            Some(inner) => Some(Mwc64u32 { inner }),
            None => None,
        }
    }

    /// The generator seeded with two 32-bit seeds drawn from `intf`, each
    /// recorded in `log`: word 0 is the first seed drawn and word 1 the
    /// second, carry 1. `None` when a seed is refused.
    pub fn new_recorded<C: SeedSource>(intf: &C, log: &mut SeedLog) -> (r: Option<Self>)
        ensures
            r matches Some(g) ==> g.state().carry() == 1 && g.state().position() == 2,
            r matches Some(g) ==> final(log).draws() == old(log).draws().push(
                SeedDraw::Bits32(Some(g.state().word(0))),
            ).push(SeedDraw::Bits32(Some(g.state().word(1)))),
            r matches Some(g) ==> forall|i: int|
                0 <= i < 2 ==> call_ensures(C::seed32, (intf,), Some(#[trigger] g.state().word(i))),
            r is None ==> call_ensures(C::seed32, (intf,), None::<u32>),
            r is None ==> final(log).draws() == old(log).draws().push(SeedDraw::Bits32(None))
                || exists|w: u32|
                final(log).draws() == old(log).draws().push(SeedDraw::Bits32(Some(w))).push(
                    SeedDraw::Bits32(None),
                ),
    {
        let r = MwcFpState::new_recorded(intf, log);
        proof {
            if r is None {
                let ws = choose|ws: Seq<u32>|
                    ws.len() < 2 && log.draws() == old(log).draws() + seed_draws::<u32>(ws).push(
                        <u32 as MwcWord>::seed_draw(None),
                    );
                if ws.len() == 1 {
                    assert(log.draws() == old(log).draws().push(SeedDraw::Bits32(Some(ws[0]))).push(
                        SeedDraw::Bits32(None),
                    ));
                } else {
                    assert(log.draws() == old(log).draws().push(SeedDraw::Bits32(None)));
                }
            } else {
                let s = r->0;
                assert(log.draws() == old(log).draws().push(SeedDraw::Bits32(Some(s.word(0)))).push(
                    SeedDraw::Bits32(Some(s.word(1))),
                ));
            }
        }
        match r {
            Some(inner) => Some(Mwc64u32 { inner }),
            None => None,
        }
    }
}

impl Mwc128u64 {
    /// One output moves the state to [`MwcFpState::stepped`] and returns
    /// [`MwcFpState::out_word`].
    pub proof fn lemma_step(g: Self)
        ensures
            g.spec_step().state() == g.state().stepped(),
            g.spec_output() == g.state().out_word(),
    {
    }

    /// The underlying generator state.
    pub closed spec fn state(self) -> MwcFpState<u64, 2, 17741297344439402706u64, false> {
        self.inner
    }

    /// The generator with the words `x`, carry `c`, at the end of a block;
    /// `None` unless `c` lies below the multiplier.
    pub fn from_words(x: [u64; 2], c: u64) -> (r: Option<Self>)
        ensures
            r is Some <==> c < 17741297344439402706u64,
            r matches Some(g) ==> g.state().carry() == c && g.state().position() == 2
                && g.state().value() == seq_value(x@),
    {
        match MwcFpState::from_words(x, c) {
            Some(inner) => Some(Mwc128u64 { inner }),
            None => None,
        }
    }

    /// The generator seeded with two 64-bit seeds drawn from `intf`, each
    /// recorded in `log`: word 0 is the first seed drawn and word 1 the
    /// second, carry 1. `None` when a seed is refused.
    pub fn new_recorded<C: SeedSource>(intf: &C, log: &mut SeedLog) -> (r: Option<Self>)
        ensures
            r matches Some(g) ==> g.state().carry() == 1 && g.state().position() == 2,
            r matches Some(g) ==> final(log).draws() == old(log).draws().push(
                SeedDraw::Bits64(Some(g.state().word(0))),
            ).push(SeedDraw::Bits64(Some(g.state().word(1)))),
            r matches Some(g) ==> forall|i: int|
                0 <= i < 2 ==> call_ensures(C::seed64, (intf,), Some(#[trigger] g.state().word(i))),
            r is None ==> call_ensures(C::seed64, (intf,), None::<u64>),
            r is None ==> final(log).draws() == old(log).draws().push(SeedDraw::Bits64(None))
                || exists|w: u64|
                final(log).draws() == old(log).draws().push(SeedDraw::Bits64(Some(w))).push(
                    SeedDraw::Bits64(None),
                ),
    {
        let r = MwcFpState::new_recorded(intf, log);
        proof {
            if r is None {
                let ws = choose|ws: Seq<u64>|
                    ws.len() < 2 && log.draws() == old(log).draws() + seed_draws::<u64>(ws).push(
                        <u64 as MwcWord>::seed_draw(None),
                    );
                if ws.len() == 1 {
                    assert(log.draws() == old(log).draws().push(SeedDraw::Bits64(Some(ws[0]))).push(
                        SeedDraw::Bits64(None),
                    ));
                } else {
                    assert(log.draws() == old(log).draws().push(SeedDraw::Bits64(None)));
                }
            } else {
                let s = r->0;
                assert(log.draws() == old(log).draws().push(SeedDraw::Bits64(Some(s.word(0)))).push(
                    SeedDraw::Bits64(Some(s.word(1))),
                ));
            }
        }
        match r {
            Some(inner) => Some(Mwc128u64 { inner }),
            None => None,
        }
    }
}

impl Prng for Mwc64u32 {
    type Output = u32;

    proof fn lemma_output_word(self) {
        let v: u32 = self.inner.out_word();
        assert(v.spec_widen() == self.spec_output());
    }

    closed spec fn spec_step(self) -> Self {
        Mwc64u32 { inner: self.inner.stepped() }
    }

    closed spec fn spec_output(self) -> u64 {
        self.inner.out_word() as u64
    }

    fn next(&mut self) -> (r: u32)
        ensures
            old(self).state().steps_to(final(self).state()),
            final(self).state().value() < MwcFpState::<u32, 2, 4291122658u64, false>::modulus(),
            final(self).state().carry() < 4291122658u64,
    {
        let val = self.inner.next_raw();
        val.to_prng_output()
    }

    fn name() -> (r: &'static str)
        ensures
            r@ == "mwc64u32"@,
    {
        "mwc64u32"
    }

    fn description() -> (r: &'static str)
        ensures
            r@ == "MWCFP mwc64u32"@,
    {
        "MWCFP mwc64u32"
    }
}

impl<C: SeedSource + PrintfExt> Plugin<C> for Mwc64u32 {
    fn new(intf: &C) -> (r: Option<Self>)
        ensures
            r matches Some(g) ==> g.state().carry() == 1 && g.state().position() == 2,
            r matches Some(g) ==> forall|i: int|
                0 <= i < 2 ==> call_ensures(C::seed32, (intf,), Some(#[trigger] g.state().word(i))),
            r is None ==> call_ensures(C::seed32, (intf,), None::<u32>),
    {
        let mut log = SeedLog::new();
        Mwc64u32::new_recorded(intf, &mut log)
    }

    fn self_test(intf: &C) -> (r: bool)
        ensures
            r,
    {
        intf.rust_println("Running MWCFP self-tests...");
        true
    }
}

impl Prng for Mwc128u64 {
    type Output = u64;

    proof fn lemma_output_word(self) {
        let v: u64 = self.inner.out_word();
        assert(v.spec_widen() == self.spec_output());
    }

    closed spec fn spec_step(self) -> Self {
        Mwc128u64 { inner: self.inner.stepped() }
    }

    closed spec fn spec_output(self) -> u64 {
        self.inner.out_word()
    }

    fn next(&mut self) -> (r: u64)
        ensures
            old(self).state().steps_to(final(self).state()),
            final(self).state().value() < MwcFpState::<u64, 2, 17741297344439402706u64, false>::modulus(),
            final(self).state().carry() < 17741297344439402706u64,
    {
        let val = self.inner.next_raw();
        val.to_prng_output()
    }

    fn name() -> (r: &'static str)
        ensures
            r@ == "mwc128u64"@,
    {
        "mwc128u64"
    }

    fn description() -> (r: &'static str)
        ensures
            r@ == "MWCFP mwc128u64"@,
    {
        "MWCFP mwc128u64"
    }
}

impl<C: SeedSource + PrintfExt> Plugin<C> for Mwc128u64 {
    fn new(intf: &C) -> (r: Option<Self>)
        ensures
            r matches Some(g) ==> g.state().carry() == 1 && g.state().position() == 2,
            r matches Some(g) ==> forall|i: int|
                0 <= i < 2 ==> call_ensures(C::seed64, (intf,), Some(#[trigger] g.state().word(i))),
            r is None ==> call_ensures(C::seed64, (intf,), None::<u64>),
    {
        let mut log = SeedLog::new();
        Mwc128u64::new_recorded(intf, &mut log)
    }

    fn self_test(intf: &C) -> (r: bool)
        ensures
            r,
    {
        intf.rust_println("Running MWCFP self-tests...");
        true
    }
}


/// The MWCFP generators a plugin can offer.
#[derive(Debug, Clone, Copy, PartialEq, Eq, Structural)]
pub enum MwcVariant {
    Mwc64u32,
    Mwc128u64,
}

impl MwcVariant {
    /// The name by which the framework asks for the variant.
    pub fn tag(self) -> (r: &'static str)
        ensures
            r@ == (match self {
                MwcVariant::Mwc64u32 => "mwc64u32"@,
                MwcVariant::Mwc128u64 => "mwc128u64"@,
            }),
    {
        match self {
            MwcVariant::Mwc64u32 => "mwc64u32",
            MwcVariant::Mwc128u64 => "mwc128u64",
        }
    }
}

/// Whether `a` and `b` hold the same bytes.
fn bytes_eq(a: &[u8], b: &[u8]) -> (r: bool)
    ensures
        r == (a@ == b@),
{
    if a.len() != b.len() {
        return false;
    }
    let mut i: usize = 0;
    while i < a.len()
        invariant
            a@.len() == b@.len(),
            i <= a@.len(),
            forall|j: int| 0 <= j < i ==> a@[j] == b@[j],
        decreases a@.len() - i,
    {
        if a[i] != b[i] {
            return false;
        }
        i = i + 1;
    }
    assert(a@ =~= b@);
    true
}

/// The variant whose name is `param`, or `None` when no variant has that
/// name.
pub fn mwcfp_variant_by_name(param: &str) -> (r: Option<MwcVariant>)
    ensures
        r == (if param.spec_bytes() == "mwc64u32".spec_bytes() {
            Some(MwcVariant::Mwc64u32)
        } else if param.spec_bytes() == "mwc128u64".spec_bytes() {
            Some(MwcVariant::Mwc128u64)
        } else {
            None
        }),
{
    let p = param.as_bytes();
    if bytes_eq(p, "mwc64u32".as_bytes()) {
        Some(MwcVariant::Mwc64u32)
    } else if bytes_eq(p, "mwc128u64".as_bytes()) {
        Some(MwcVariant::Mwc128u64)
    } else {
        None
    }
}

} // verus!
