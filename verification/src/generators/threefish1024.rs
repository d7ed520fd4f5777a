use vstd::prelude::*;
use vstd::string::StringExecFns;

use crate::numfmt::push_decimal;

use crate::caller::{draw64, PrintfExt, SeedDraw, SeedLog, SeedSource};
use crate::output::PrngOutput;
use crate::prng::{Plugin, Prng};

verus! {

/// The number of 64-bit words in a Threefish-1024 block.
pub const TF1024_NWORDS: usize = 16;

/// The number of blocks the generator encrypts at once.
pub const TF1024_NCOPIES: usize = 4;

/// The number of rounds of Threefish-1024.
pub const TF1024_NROUNDS: usize = 80;

/// The key schedule constant of Threefish.
pub const C240: u64 = 0x1BD11BDAA9FC1A22u64;

/// The rotation amounts of round `d` (taken modulo 8), one per word pair.
pub open spec fn tf_rot(d: int) -> Seq<u32> {
    if d % 8 == 0 {
        seq![24u32, 13, 8, 47, 8, 17, 22, 37]
    } else if d % 8 == 1 {
        seq![38u32, 19, 10, 55, 49, 18, 23, 52]
    } else if d % 8 == 2 {
        seq![33u32, 4, 51, 13, 34, 41, 59, 17]
    } else if d % 8 == 3 {
        seq![5u32, 20, 48, 41, 47, 28, 16, 25]
    } else if d % 8 == 4 {
        seq![41u32, 9, 37, 31, 12, 47, 44, 30]
    } else if d % 8 == 5 {
        seq![16u32, 34, 56, 51, 4, 53, 42, 41]
    } else if d % 8 == 6 {
        seq![31u32, 44, 47, 46, 19, 42, 44, 25]
    } else {
        seq![9u32, 48, 35, 52, 23, 31, 37, 20]
    }
}

/// The word pairs mixed in round `d` (taken modulo 4): pair `j` is words
/// `2j` and `2j + 1` of the sequence. The words stay in place and the pairs
/// follow the Threefish-1024 permutation instead.
pub open spec fn tf_pairs(d: int) -> Seq<usize> {
    if d % 4 == 0 {
        seq![0usize, 1, 2, 3, 4, 5, 6, 7, 8, 9, 10, 11, 12, 13, 14, 15]
    } else if d % 4 == 1 {
        seq![0usize, 9, 2, 13, 6, 11, 4, 15, 10, 7, 12, 3, 14, 5, 8, 1]
    } else if d % 4 == 2 {
        seq![0usize, 7, 2, 5, 4, 3, 6, 1, 12, 15, 14, 13, 8, 11, 10, 9]
    } else {
        seq![0usize, 15, 2, 11, 6, 13, 4, 9, 14, 1, 8, 5, 10, 3, 12, 7]
    }
}

/// `x` rotated left by `n` bits.
pub open spec fn rotl64(x: u64, n: u32) -> u64 {
    (x << n) | (x >> (64 - n) as u32)
}

/// The MIX function on words `i0` and `i1`: `x[i0] += x[i1]`, then
/// `x[i1] = rotl(x[i1], r) ^ x[i0]`.
pub open spec fn tf_mix(x: Seq<u64>, i0: int, i1: int, r: u32) -> Seq<u64> {
    let a = x[i0].wrapping_add(x[i1]);
    x.update(i0, a).update(i1, rotl64(x[i1], r) ^ a)
}

/// The first `j` MIX steps of round `d`.
pub open spec fn tf_mixes(x: Seq<u64>, d: int, j: nat) -> Seq<u64>
    decreases j,
{
    if j == 0 {
        x
    } else {
        let y = tf_mixes(x, d, (j - 1) as nat);
        let pr = tf_pairs(d);
        tf_mix(y, pr[2 * (j - 1)] as int, pr[2 * (j - 1) + 1] as int, tf_rot(d)[j - 1])
    }
}

/// The subkey `s` added to the block `x`: words of the extended key `k`,
/// words of the extended tweak `t`, and `s` itself on the last word.
pub open spec fn tf_inject(x: Seq<u64>, k: Seq<u64>, t: Seq<u64>, s: nat) -> Seq<u64> {
    Seq::new(
        16,
        |i: int|
            {
                let v = x[i].wrapping_add(k[(s + i) % 17]);
                if i == 13 {
                    v.wrapping_add(t[(s % 3) as int])
                } else if i == 14 {
                    v.wrapping_add(t[((s + 1) % 3) as int])
                } else if i == 15 {
                    v.wrapping_add(s as u64)
                } else {
                    v
                }
            },
    )
}

/// The block after the first `r` rounds, a subkey being added before every
/// fourth round.
pub open spec fn tf_rounds(k: Seq<u64>, t: Seq<u64>, p: Seq<u64>, r: nat) -> Seq<u64>
    decreases r,
{
    if r == 0 {
        p
    } else {
        let d = r - 1;
        let x = tf_rounds(k, t, p, d as nat);
        let y = if d % 4 == 0 {
            tf_inject(x, k, t, (d / 4) as nat)
        } else {
            x
        };
        tf_mixes(y, d, 8)
    }
}

/// Threefish-1024 encryption of the block `p` under the extended key `k`
/// (17 words) and the extended tweak `t` (3 words): 80 rounds and a last
/// subkey.
pub open spec fn threefish1024(k: Seq<u64>, t: Seq<u64>, p: Seq<u64>) -> Seq<u64> {
    tf_inject(tf_rounds(k, t, p, 80), k, t, 20)
}

/// The rotation amount of pair `j` in round `d`.
fn rot_amount(d: usize, j: usize) -> (r: u32)
    requires
        j < 8,
    ensures
        r == tf_rot(d as int)[j as int],
        4 <= r <= 59,
{
    let row: [u32; 8] = if d % 8 == 0 {
        [24, 13, 8, 47, 8, 17, 22, 37]
    } else if d % 8 == 1 {
        [38, 19, 10, 55, 49, 18, 23, 52]
    } else if d % 8 == 2 {
        [33, 4, 51, 13, 34, 41, 59, 17]
    } else if d % 8 == 3 {
        [5, 20, 48, 41, 47, 28, 16, 25]
    } else if d % 8 == 4 {
        [41, 9, 37, 31, 12, 47, 44, 30]
    } else if d % 8 == 5 {
        [16, 34, 56, 51, 4, 53, 42, 41]
    } else if d % 8 == 6 {
        [31, 44, 47, 46, 19, 42, 44, 25]
    } else {
        [9, 48, 35, 52, 23, 31, 37, 20]
    };
    assert(row@ =~= tf_rot(d as int));
    row[j]
}

/// Word index `j` of the pairs of round `d`.
fn pair_index(d: usize, j: usize) -> (r: usize)
    requires
        j < 16,
    ensures
        r == tf_pairs(d as int)[j as int],
        r < 16,
{
    let row: [usize; 16] = if d % 4 == 0 {
        [0, 1, 2, 3, 4, 5, 6, 7, 8, 9, 10, 11, 12, 13, 14, 15]
    } else if d % 4 == 1 {
        [0, 9, 2, 13, 6, 11, 4, 15, 10, 7, 12, 3, 14, 5, 8, 1]
    } else if d % 4 == 2 {
        [0, 7, 2, 5, 4, 3, 6, 1, 12, 15, 14, 13, 8, 11, 10, 9]
    } else {
        [0, 15, 2, 11, 6, 13, 4, 9, 14, 1, 8, 5, 10, 3, 12, 7]
    };
    assert(row@ =~= tf_pairs(d as int));
    row[j]
}


/// `x` rotated left by `n` bits.
fn rotl(x: u64, n: u32) -> (r: u64)
    requires
        0 < n < 64,
    ensures
        r == rotl64(x, n),
{
    (x << n) | (x >> (64 - n))
}

/// One MIX step on words `i0` and `i1` with rotation `r`.
fn mix_iter(x: &mut [u64; 16], i0: usize, i1: usize, r: u32)
    requires
        i0 < 16,
        i1 < 16,
        i0 != i1,
        0 < r < 64,
    ensures
        final(x)@ == tf_mix(old(x)@, i0 as int, i1 as int, r),
{
    let a = x[i0].wrapping_add(x[i1]);
    let b = rotl(x[i1], r) ^ a;
    x[i0] = a;
    x[i1] = b;
    assert(x@ =~= tf_mix(old(x)@, i0 as int, i1 as int, r));
}

/// The eight MIX steps of round `d`.
fn mix_round(x: &mut [u64; 16], d: usize)
    ensures
        final(x)@ == tf_mixes(old(x)@, d as int, 8),
{
    let ghost x0 = x@;
    let mut j: usize = 0;
    while j < 8
        invariant
            j <= 8,
            x@ == tf_mixes(x0, d as int, j as nat),
        decreases 8 - j,
    {
        let i0 = pair_index(d, 2 * j);
        let i1 = pair_index(d, 2 * j + 1);
        let r = rot_amount(d, j);
        assert(i0 != i1) by {
            assert(tf_pairs(d as int)[2 * j as int] != tf_pairs(d as int)[2 * j + 1]);
        }
        mix_iter(x, i0, i1, r);
        j = j + 1;
    }
}

/// Adds subkey `s` to the block.
fn key_schedule(x: &mut [u64; 16], k: &[u64; 17], t: &[u64; 3], s: usize)
    requires
        s <= 20,
    ensures
        final(x)@ == tf_inject(old(x)@, k@, t@, s as nat),
{
    let ghost x0 = x@;
    let mut i: usize = 0;
    while i < 16
        invariant
            i <= 16,
            s <= 20,
            forall|j: int| 0 <= j < i ==> x@[j] == x0[j].wrapping_add(k@[(s + j) % 17]),
            forall|j: int| i <= j < 16 ==> x@[j] == x0[j],
        decreases 16 - i,
    {
        x[i] = x[i].wrapping_add(k[(s + i) % 17]);
        i = i + 1;
    }
    x[13] = x[13].wrapping_add(t[s % 3]);
    x[14] = x[14].wrapping_add(t[(s + 1) % 3]);
    x[15] = x[15].wrapping_add(s as u64);
    assert(x@ =~= tf_inject(x0, k@, t@, s as nat));
}

/// Threefish-1024 encryption of one block under the extended key `k` and
/// the extended tweak `t`.
pub fn tf_encrypt(k: &[u64; 17], t: &[u64; 3], p: [u64; 16]) -> (r: [u64; 16])
    ensures
        r@ == threefish1024(k@, t@, p@),
{
    let mut x = p;
    let mut d: usize = 0;
    while d < TF1024_NROUNDS
        invariant
            d <= 80,
            x@ == tf_rounds(k@, t@, p@, d as nat),
        decreases 80 - d,
    {
        if d % 4 == 0 {
            key_schedule(&mut x, k, t, d / 4);
        }
        mix_round(&mut x, d);
        d = d + 1;
    }
    key_schedule(&mut x, k, t, TF1024_NROUNDS / 4);
    x
}


/// `C240` xored with the first `n` words of `key`.
pub open spec fn tf_key_parity(key: Seq<u64>, n: nat) -> u64
    decreases n,
{
    if n == 0 {
        C240
    } else {
        tf_key_parity(key, (n - 1) as nat) ^ key[n - 1]
    }
}

/// The extended key: the 16 key words and their parity word.
pub open spec fn tf_extend_key(key: Seq<u64>) -> Seq<u64> {
    key.push(tf_key_parity(key, 16))
}

/// The extended tweak: the two tweak words and their xor.
pub open spec fn tf_extend_tweak(tweak: Seq<u64>) -> Seq<u64> {
    seq![tweak[0], tweak[1], tweak[0] ^ tweak[1]]
}

/// Block `lane` of the plaintext words `p` (word `i` of block `lane` is
/// `p[i][lane]`).
pub open spec fn column(p: [[u64; 4]; 16], lane: int) -> Seq<u64> {
    Seq::new(16, |i: int| p[i][lane])
}

/// The Threefish-1024 counter-mode generator: four 1024-bit blocks of
/// counters are encrypted at a time under a key drawn from the seeds, and
/// the 64 words of ciphertext are returned one by one.
///
/// `p[i][lane]` is word `i` of plaintext block `lane` and `v[i][lane]` the
/// same word of its ciphertext; `k` and `t` are the extended key and tweak;
/// `pos` counts the words already returned.
pub struct Tf1024VecState {
    pub p: [[u64; 4]; 16],
    pub v: [[u64; 4]; 16],
    pub k: [u64; 17],
    pub t: [u64; 3],
    pub pos: usize,
}

/// `v` holds the encryption of the four plaintext blocks of `s`.
pub open spec fn block_holds(s: Tf1024VecState) -> bool {
    forall|i: int, lane: int|
        0 <= i < 16 && 0 <= lane < 4 ==> #[trigger] s.v[i][lane] == threefish1024(
            s.k@,
            s.t@,
            column(s.p, lane),
        )[i]
}

/// Word `i` of lane `l` is word `i` of the encryption of lane `l`'s own
/// plaintext, the sixteen words `p[0][l]`, ..., `p[15][l]`: each of the four
/// lanes encrypts its own counter block.
pub proof fn law_block_lanes(s: Tf1024VecState, i: int, l: int)
    requires
        block_holds(s),
        0 <= i < 16,
        0 <= l < 4,
    ensures
        s.v[i][l] == threefish1024(
            s.k@,
            s.t@,
            seq![s.p[0][l], s.p[1][l], s.p[2][l], s.p[3][l], s.p[4][l], s.p[5][l], s.p[6][l], s.p[7][l], s.p[8][l], s.p[9][l], s.p[10][l], s.p[11][l], s.p[12][l], s.p[13][l], s.p[14][l], s.p[15][l]],
        )[i],
{
    assert(column(s.p, l) =~= seq![s.p[0][l], s.p[1][l], s.p[2][l], s.p[3][l], s.p[4][l], s.p[5][l], s.p[6][l], s.p[7][l], s.p[8][l], s.p[9][l], s.p[10][l], s.p[11][l], s.p[12][l], s.p[13][l], s.p[14][l], s.p[15][l]]);
}

/// What one output does to the state: when all 64 words have been
/// returned, the counters advance by 4 and the blocks are encrypted again;
/// then one word is taken.
pub open spec fn tf_steps_to(s: Tf1024VecState, n: Tf1024VecState) -> bool {
    &&& n.k == s.k
    &&& n.t == s.t
    &&& if s.pos >= 64 {
        &&& n.pos == 1
        &&& forall|j: int| 0 <= j < 4 ==> #[trigger] n.p[0][j] == s.p[0][j].wrapping_add(4)
        &&& forall|i: int| 1 <= i < 16 ==> #[trigger] n.p[i] == s.p[i]
        &&& block_holds(n)
    } else {
        &&& n.pos == s.pos + 1
        &&& n.p == s.p
        &&& n.v == s.v
    }
}

impl Tf1024VecState {
    /// Encrypts the four plaintext blocks into `v`.
    pub fn block(&mut self)
        ensures
            final(self).p == old(self).p,
            final(self).k == old(self).k,
            final(self).t == old(self).t,
            final(self).pos == old(self).pos,
            block_holds(*final(self)),
            forall|i: int, l: int|
                0 <= i < 16 && 0 <= l < 4 ==> #[trigger] final(self).v[i][l] == threefish1024(
                    old(self).k@,
                    old(self).t@,
                    seq![old(self).p[0][l], old(self).p[1][l], old(self).p[2][l], old(self).p[3][l], old(self).p[4][l], old(self).p[5][l], old(self).p[6][l], old(self).p[7][l], old(self).p[8][l], old(self).p[9][l], old(self).p[10][l], old(self).p[11][l], old(self).p[12][l], old(self).p[13][l], old(self).p[14][l], old(self).p[15][l]],
                )[i],
    {
        let mut lane: usize = 0;
        while lane < TF1024_NCOPIES
            invariant
                lane <= 4,
                self.p == old(self).p,
                self.k == old(self).k,
                self.t == old(self).t,
                self.pos == old(self).pos,
                forall|i: int, l: int|
                    0 <= i < 16 && 0 <= l < lane ==> #[trigger] self.v[i][l] == threefish1024(
                        self.k@,
                        self.t@,
                        column(self.p, l),
                    )[i],
            decreases 4 - lane,
        {
            let mut col = [0u64; 16];
            let mut i: usize = 0;
            while i < TF1024_NWORDS
                invariant
                    i <= 16,
                    lane < 4,
                    forall|j: int| 0 <= j < i ==> col@[j] == self.p[j][lane as int],
                decreases 16 - i,
            {
                col[i] = self.p[i][lane];
                i = i + 1;
            }
            assert(col@ =~= column(self.p, lane as int));
            let enc = tf_encrypt(&self.k, &self.t, col);
            let ghost v_before = self.v;
            let mut i: usize = 0;
            while i < TF1024_NWORDS
                invariant
                    i <= 16,
                    lane < 4,
                    enc@ == threefish1024(self.k@, self.t@, column(self.p, lane as int)),
                    self.p == old(self).p,
                    self.k == old(self).k,
                    self.t == old(self).t,
                    self.pos == old(self).pos,
                    forall|j: int, l: int|
                        0 <= j < 16 && 0 <= l < 4 && l != lane ==> #[trigger] self.v[j][l]
                            == v_before[j][l],
                    forall|j: int| 0 <= j < i ==> #[trigger] self.v[j][lane as int] == enc@[j],
                decreases 16 - i,
            {
                let mut row = self.v[i];
                row[lane] = enc[i];
                self.v[i] = row;
                i = i + 1;
            }
            lane = lane + 1;
        }
        proof {
            assert forall|i: int, l: int| 0 <= i < 16 && 0 <= l < 4 implies #[trigger] self.v[i][l]
                == threefish1024(
                old(self).k@,
                old(self).t@,
                seq![old(self).p[0][l], old(self).p[1][l], old(self).p[2][l], old(self).p[3][l], old(self).p[4][l], old(self).p[5][l], old(self).p[6][l], old(self).p[7][l], old(self).p[8][l], old(self).p[9][l], old(self).p[10][l], old(self).p[11][l], old(self).p[12][l], old(self).p[13][l], old(self).p[14][l], old(self).p[15][l]],
            )[i] by {
                law_block_lanes(*self, i, l);
            }
        }
    }

    /// A generator with the key `key` and the tweak `tweak`: the counters
    /// of the four blocks are 0, 1, 2 and 3, and the blocks are encrypted.
    pub fn init(key: &[u64; 16], tweak: &[u64; 2]) -> (r: Self)
        ensures
            r.k@ == tf_extend_key(key@),
            r.t@ == tf_extend_tweak(tweak@),
            forall|j: int| 0 <= j < 4 ==> #[trigger] r.p[0][j] == j,
            forall|i: int, j: int| 1 <= i < 16 && 0 <= j < 4 ==> #[trigger] r.p[i][j] == 0,
            r.pos == 0,
            block_holds(r),
            forall|i: int, l: int|
                0 <= i < 16 && 0 <= l < 4 ==> #[trigger] r.v[i][l] == threefish1024(
                    tf_extend_key(key@),
                    tf_extend_tweak(tweak@),
                    seq![l as u64, 0u64, 0u64, 0u64, 0u64, 0u64, 0u64, 0u64, 0u64, 0u64, 0u64, 0u64, 0u64, 0u64, 0u64, 0u64],
                )[i],
    {
        let mut state = Tf1024VecState {
            k: [0; 17],
            t: [0; 3],
            p: [[0; 4]; 16],
            v: [[0; 4]; 16],
            pos: 0,
        };
        state.k[TF1024_NWORDS] = C240;
        let mut i: usize = 0;
        while i < TF1024_NWORDS
            invariant
                i <= 16,
                state.k@[16] == tf_key_parity(key@, i as nat),
                forall|j: int| 0 <= j < i ==> state.k@[j] == key@[j],
                forall|a: int, b: int| 0 <= a < 16 && 0 <= b < 4 ==> #[trigger] state.p[a][b] == 0,
                state.pos == 0,
            decreases 16 - i,
        {
            state.k[i] = key[i];
            state.k[TF1024_NWORDS] = state.k[TF1024_NWORDS] ^ state.k[i];
            i = i + 1;
        }
        assert(state.k@ =~= tf_extend_key(key@));
        state.t[0] = tweak[0];
        state.t[1] = tweak[1];
        state.t[2] = tweak[0] ^ tweak[1];
        assert(state.t@ =~= tf_extend_tweak(tweak@));
        let mut row = state.p[0];
        let mut j: usize = 0;
        while j < TF1024_NCOPIES
            invariant
                j <= 4,
                forall|l: int| 0 <= l < j ==> row@[l] == l,
            decreases 4 - j,
        {
            row[j] = j as u64;
            j = j + 1;
        }
        state.p[0] = row;
        state.block();
        proof {
            assert forall|i: int, l: int| 0 <= i < 16 && 0 <= l < 4 implies #[trigger] state.v[i][l]
                == threefish1024(
                tf_extend_key(key@),
                tf_extend_tweak(tweak@),
                seq![l as u64, 0u64, 0u64, 0u64, 0u64, 0u64, 0u64, 0u64, 0u64, 0u64, 0u64, 0u64, 0u64, 0u64, 0u64, 0u64],
            )[i] by {
                law_block_lanes(state, i, l);
                assert(seq![state.p[0][l], state.p[1][l], state.p[2][l], state.p[3][l], state.p[4][l], state.p[5][l], state.p[6][l], state.p[7][l], state.p[8][l], state.p[9][l], state.p[10][l], state.p[11][l], state.p[12][l], state.p[13][l], state.p[14][l], state.p[15][l]] =~= seq![l as u64, 0u64, 0u64, 0u64, 0u64, 0u64, 0u64, 0u64, 0u64, 0u64, 0u64, 0u64, 0u64, 0u64, 0u64, 0u64]);
            }
        }
        state
    }

    /// Advances the counter of each block by 4.
    pub fn inc_counter(&mut self)
        ensures
            forall|j: int| 0 <= j < 4 ==> #[trigger] final(self).p[0][j] == old(self).p[0][j].wrapping_add(4),
            forall|i: int| 1 <= i < 16 ==> #[trigger] final(self).p[i] == old(self).p[i],
            final(self).v == old(self).v,
            final(self).k == old(self).k,
            final(self).t == old(self).t,
            final(self).pos == old(self).pos,
    {
        let mut row = self.p[0];
        let ghost row0 = row;
        let mut j: usize = 0;
        while j < TF1024_NCOPIES
            invariant
                j <= 4,
                forall|l: int| 0 <= l < j ==> row@[l] == row0@[l].wrapping_add(4),
                forall|l: int| j <= l < 4 ==> row@[l] == row0@[l],
            decreases 4 - j,
        {
            row[j] = row[j].wrapping_add(TF1024_NCOPIES as u64);
            j = j + 1;
        }
        self.p[0] = row;
    }

    /// The next word of ciphertext; when all 64 have been returned the
    /// counters advance and the blocks are encrypted again.
    pub fn next_raw(&mut self) -> (r: u64)
        ensures
            tf_steps_to(*old(self), *final(self)),
            r == final(self).v[(final(self).pos - 1) % 16][(final(self).pos - 1) / 16],
    {
        if self.pos >= TF1024_NWORDS * TF1024_NCOPIES {
            self.inc_counter();
            self.block();
            self.pos = 0;
        }
        let pos = self.pos;
        let i = pos & 0xF;
        let j = pos >> 4u32;
        assert(i == pos % 16 && j == pos / 16) by (bit_vector)
            requires
                i == pos & 0xF,
                j == pos >> 4u32,
        ;
        let x = self.v[i][j];
        self.pos = pos + 1;
        x
    }
}

/// Two states that one output can lead to from the same state are equal.
pub proof fn lemma_tf_step_unique(s: Tf1024VecState, n1: Tf1024VecState, n2: Tf1024VecState)
    requires
        tf_steps_to(s, n1),
        tf_steps_to(s, n2),
    ensures
        n1 == n2,
{
    if s.pos >= 64 {
        assert(n1.p[0] =~= n2.p[0]);
        assert(n1.p =~= n2.p);
        assert forall|i: int| 0 <= i < 16 implies n1.v[i] =~= n2.v[i] by {
            assert forall|l: int| 0 <= l < 4 implies n1.v[i][l] == n2.v[i][l] by {
                assert(n1.v[i][l] == threefish1024(n1.k@, n1.t@, column(n1.p, l))[i]);
                assert(n2.v[i][l] == threefish1024(n2.k@, n2.t@, column(n2.p, l))[i]);
            }
        }
        assert(n1.v =~= n2.v);
    }
}

/// The ciphertext of the zero block under the zero key and tweak.
pub open spec fn tf_ref1() -> Seq<u64> {
    seq![
        0x04B3053D0A3D5CF0u64, 0x0136E0D1C7DD85F7, 0x067B212F6EA78A5C, 0x0DA9C10B4C54E1C6,
        0x0F4EC27394CBACF0, 0x32437F0568EA4FD5, 0xCFF56D1D7654B49C, 0xA2D5FB14369B2E7B,
        0x540306B460472E0B, 0x71C18254BCEA820D, 0xC36B4068BEAF32C8, 0xFA4329597A360095,
        0xC4A36C28434A5B9A, 0xD54331444B1046CF, 0xDF11834830B2A460, 0x1E39E8DFE1F7EE4F,
    ]
}

/// The key of the second reference vector.
pub open spec fn tf_key2() -> Seq<u64> {
    seq![
        0x1716151413121110u64, 0x1F1E1D1C1B1A1918, 0x2726252423222120, 0x2F2E2D2C2B2A2928,
        0x3736353433323130, 0x3F3E3D3C3B3A3938, 0x4746454443424140, 0x4F4E4D4C4B4A4948,
        0x5756555453525150, 0x5F5E5D5C5B5A5958, 0x6766656463626160, 0x6F6E6D6C6B6A6968,
        0x7776757473727170, 0x7F7E7D7C7B7A7978, 0x8786858483828180, 0x8F8E8D8C8B8A8988,
    ]
}

/// The tweak of the second reference vector.
pub open spec fn tf_tweak2() -> Seq<u64> {
    seq![0x0706050403020100u64, 0x0F0E0D0C0B0A0908]
}

/// The plaintext of the second reference vector.
pub open spec fn tf_plain2() -> Seq<u64> {
    seq![
        0xF8F9FAFBFCFDFEFFu64, 0xF0F1F2F3F4F5F6F7, 0xE8E9EAEBECEDEEEF, 0xE0E1E2E3E4E5E6E7,
        0xD8D9DADBDCDDDEDF, 0xD0D1D2D3D4D5D6D7, 0xC8C9CACBCCCDCECF, 0xC0C1C2C3C4C5C6C7,
        0xB8B9BABBBCBDBEBF, 0xB0B1B2B3B4B5B6B7, 0xA8A9AAABACADAEAF, 0xA0A1A2A3A4A5A6A7,
        0x98999A9B9C9D9E9F, 0x9091929394959697, 0x88898A8B8C8D8E8F, 0x8081828384858687,
    ]
}

/// The ciphertext of the second reference vector.
pub open spec fn tf_ref2() -> Seq<u64> {
    seq![
        0xB0C33CD7DB4D65A6u64, 0xBC49A85A1077D75D, 0x6855FCAFEA7293E4, 0x1C5385AB1B7754D2,
        0x30E4AAFFE780F794, 0xE1BBEE708CAFD8D5, 0x9CA837B7423B0F76, 0xBD1403670D4963B3,
        0x451F2E3CE61EA48A, 0xB360832F9277D4FB, 0x0AAFC7A65E12D688, 0xC8906E79016D05D7,
        0xB316570A15F41333, 0x74E98A2869F5D50E, 0x57CE6F9247432BCE, 0xDE7CDD77215144DE,
    ]
}

/// Whether the encryption of the zero block under the zero key and tweak
/// is [`tf_ref1`].
pub open spec fn tf_vector1_holds() -> bool {
    threefish1024(tf_extend_key(Seq::new(16, |i: int| 0u64)), tf_extend_tweak(seq![0u64, 0]), Seq::new(16, |i: int| 0u64)) =~= tf_ref1()
}

/// Whether the encryption of [`tf_plain2`] under [`tf_key2`] and
/// [`tf_tweak2`] is [`tf_ref2`].
pub open spec fn tf_vector2_holds() -> bool {
    threefish1024(tf_extend_key(tf_key2()), tf_extend_tweak(tf_tweak2()), tf_plain2()) =~= tf_ref2()
}

impl Tf1024VecState {
    /// Compares word `i` of block 0 of `v` with `expected` for every `i`;
    /// prints where the first difference lies.
    fn check_block0<C: PrintfExt>(&self, expected: &[u64; 16], test_no: u64, intf: &C) -> (r: bool)
        ensures
            r == forall|i: int| 0 <= i < 16 ==> #[trigger] self.v[i][0] == expected@[i],
    {
        let mut i: usize = 0;
        while i < TF1024_NWORDS
            invariant
                i <= 16,
                forall|j: int| 0 <= j < i ==> #[trigger] self.v[j][0] == expected@[j],
            decreases 16 - i,
        {
            if self.v[i][0] != expected[i] {
                let mut msg = String::from_str("Test ");
                push_decimal(&mut msg, test_no);
                msg.append(" failed at word ");
                push_decimal(&mut msg, i as u64);
                msg.append("\n");
                intf.rust_printf(msg.as_str());
                return false;
            }
            i = i + 1;
        }
        true
    }
}

/// When one output leads from `s` to `n`, `n` is the generator's next
/// state: `s.spec_step() == n`, so `tf_steps_to(s, s.spec_step())` holds.
pub proof fn lemma_tf_spec_step(s: Tf1024VecState, n: Tf1024VecState)
    requires
        tf_steps_to(s, n),
    ensures
        s.spec_step() == n,
        tf_steps_to(s, s.spec_step()),
{
    lemma_tf_step_unique(s, s.spec_step(), n);
}

impl Prng for Tf1024VecState {
    type Output = u64;

    proof fn lemma_output_word(self) {
        let v: u64 = self.spec_output();
        assert(v.spec_widen() == self.spec_output());
    }

    open spec fn spec_step(self) -> Self {
        choose|n: Self| tf_steps_to(self, n)
    }

    open spec fn spec_output(self) -> u64 {
        let n = self.spec_step();
        n.v[(n.pos - 1) % 16][(n.pos - 1) / 16]
    }

    fn next(&mut self) -> (r: u64)
        ensures
            tf_steps_to(*old(self), *final(self)),
    {
        let ghost s0 = *self;
        let r = self.next_raw();
        proof {
            let n = s0.spec_step();
            assert(tf_steps_to(s0, *self));
            lemma_tf_step_unique(s0, n, *self);
        }
        r
    }

    fn name() -> (r: &'static str)
        ensures
            r@ == "ThreeFish1024"@,
    {
        "ThreeFish1024"
    }

    fn description() -> (r: &'static str)
        ensures
            r@ == "Threefish-1024 vectorized PRNG (AVX2 equivalent via std::simd)"@,
    {
        "Threefish-1024 vectorized PRNG (AVX2 equivalent via std::simd)"
    }
}

impl Tf1024VecState {
    /// A generator keyed with sixteen 64-bit seeds drawn from `intf`, each
    /// recorded in `log`: key word `i` is the `i`-th seed drawn, in order.
    /// Tweak 0, counters 0, 1, 2, 3. `None` when a seed is refused; no seed
    /// is drawn after that.
    pub fn new_recorded<C: SeedSource>(intf: &C, log: &mut SeedLog) -> (r: Option<Self>)
        ensures
            r matches Some(g) ==> {
                &&& g.t@ == tf_extend_tweak(seq![0u64, 0])
                &&& g.k@.len() == 17
                &&& g.k@[16] == tf_key_parity(g.k@.take(16), 16)
                &&& forall|j: int| 0 <= j < 4 ==> #[trigger] g.p[0][j] == j
                &&& forall|i: int, j: int| 1 <= i < 16 && 0 <= j < 4 ==> #[trigger] g.p[i][j] == 0
                &&& g.pos == 0
                &&& block_holds(g)
                &&& forall|i: int| 0 <= i < 16 ==> call_ensures(C::seed64, (intf,), Some(#[trigger] g.k@[i]))
            },
            r is None ==> call_ensures(C::seed64, (intf,), None::<u64>),
            r matches Some(g) ==> final(log).draws() == old(log).draws() + Seq::new(
                16,
                |i: int| SeedDraw::Bits64(Some(g.k@[i])),
            ),
            r is None ==> exists|ws: Seq<u64>|
                ws.len() < 16 && final(log).draws() == old(log).draws() + key_draws(ws).push(
                    SeedDraw::Bits64(None),
                ),
    {
        let ghost start = log.draws();
        let mut key = [0u64; 16];
        let mut i: usize = 0;
        while i < TF1024_NWORDS
            invariant
                i <= 16,
                forall|j: int| 0 <= j < i ==> call_ensures(C::seed64, (intf,), Some(#[trigger] key@[j])),
                start == old(log).draws(),
                log.draws() == start + key_draws(key@.subrange(0, i as int)),
            decreases 16 - i,
        {
            let ghost before = key@.subrange(0, i as int);
            match draw64(intf, log) {
                Some(w) => {
                    key[i] = w;
                    assert(key@.subrange(0, i + 1) == before.push(w));
                    assert(key_draws(key@.subrange(0, i + 1)) == key_draws(before).push(
                        SeedDraw::Bits64(Some(w)),
                    ));
                },
                None => {
                    assert(log.draws() == start + key_draws(before).push(SeedDraw::Bits64(None)));
                    return None;
                },
            }
            i = i + 1;
        }
        let g = Self::init(&key, &[0, 0]);
        proof {
            assert(seq![0u64, 0] =~= [0u64, 0]@);
            assert(g.k@.take(16) =~= key@);
            assert(key@.subrange(0, 16) == key@);
            assert(Seq::new(16, |i: int| SeedDraw::Bits64(Some(g.k@[i]))) == key_draws(key@));
        }
        Some(g)
    }
}

/// The records of drawing the key words `ws`, in order.
pub open spec fn key_draws(ws: Seq<u64>) -> Seq<SeedDraw> {
    Seq::new(ws.len(), |i: int| SeedDraw::Bits64(Some(ws[i])))
}

impl<C: SeedSource + PrintfExt> Plugin<C> for Tf1024VecState {
    fn new(intf: &C) -> (r: Option<Self>)
        ensures
            r matches Some(g) ==> {
                &&& g.t@ == tf_extend_tweak(seq![0u64, 0])
                &&& g.k@.len() == 17
                &&& g.k@[16] == tf_key_parity(g.k@.take(16), 16)
                &&& forall|j: int| 0 <= j < 4 ==> #[trigger] g.p[0][j] == j
                &&& forall|i: int, j: int| 1 <= i < 16 && 0 <= j < 4 ==> #[trigger] g.p[i][j] == 0
                &&& g.pos == 0
                &&& block_holds(g)
                &&& forall|i: int| 0 <= i < 16 ==> call_ensures(C::seed64, (intf,), Some(#[trigger] g.k@[i]))
            },
            r is None ==> call_ensures(C::seed64, (intf,), None::<u64>),
    {
        let mut log = SeedLog::new();
        Tf1024VecState::new_recorded(intf, &mut log)
    }

    fn self_test(intf: &C) -> (r: bool)
        ensures
            r == (tf_vector1_holds() && tf_vector2_holds()),
    {
        let key1 = [0u64; 16];
        let ref1: [u64; 16] = [
            0x04B3053D0A3D5CF0, 0x0136E0D1C7DD85F7, 0x067B212F6EA78A5C, 0x0DA9C10B4C54E1C6,
            0x0F4EC27394CBACF0, 0x32437F0568EA4FD5, 0xCFF56D1D7654B49C, 0xA2D5FB14369B2E7B,
            0x540306B460472E0B, 0x71C18254BCEA820D, 0xC36B4068BEAF32C8, 0xFA4329597A360095,
            0xC4A36C28434A5B9A, 0xD54331444B1046CF, 0xDF11834830B2A460, 0x1E39E8DFE1F7EE4F,
        ];
        let key2: [u64; 16] = [
            0x1716151413121110, 0x1F1E1D1C1B1A1918, 0x2726252423222120, 0x2F2E2D2C2B2A2928,
            0x3736353433323130, 0x3F3E3D3C3B3A3938, 0x4746454443424140, 0x4F4E4D4C4B4A4948,
            0x5756555453525150, 0x5F5E5D5C5B5A5958, 0x6766656463626160, 0x6F6E6D6C6B6A6968,
            0x7776757473727170, 0x7F7E7D7C7B7A7978, 0x8786858483828180, 0x8F8E8D8C8B8A8988,
        ];
        let ref2: [u64; 16] = [
            0xB0C33CD7DB4D65A6, 0xBC49A85A1077D75D, 0x6855FCAFEA7293E4, 0x1C5385AB1B7754D2,
            0x30E4AAFFE780F794, 0xE1BBEE708CAFD8D5, 0x9CA837B7423B0F76, 0xBD1403670D4963B3,
            0x451F2E3CE61EA48A, 0xB360832F9277D4FB, 0x0AAFC7A65E12D688, 0xC8906E79016D05D7,
            0xB316570A15F41333, 0x74E98A2869F5D50E, 0x57CE6F9247432BCE, 0xDE7CDD77215144DE,
        ];
        let plain2: [u64; 16] = [
            0xF8F9FAFBFCFDFEFF, 0xF0F1F2F3F4F5F6F7, 0xE8E9EAEBECEDEEEF, 0xE0E1E2E3E4E5E6E7,
            0xD8D9DADBDCDDDEDF, 0xD0D1D2D3D4D5D6D7, 0xC8C9CACBCCCDCECF, 0xC0C1C2C3C4C5C6C7,
            0xB8B9BABBBCBDBEBF, 0xB0B1B2B3B4B5B6B7, 0xA8A9AAABACADAEAF, 0xA0A1A2A3A4A5A6A7,
            0x98999A9B9C9D9E9F, 0x9091929394959697, 0x88898A8B8C8D8E8F, 0x8081828384858687,
        ];
        assert(key1@ =~= Seq::new(16, |i: int| 0u64));
        assert(ref1@ =~= tf_ref1());
        assert(key2@ =~= tf_key2());
        assert(ref2@ =~= tf_ref2());
        assert(plain2@ =~= tf_plain2());
        intf.rust_printf("Testing Threefish-1024 vectorized implementation...\n");
        let state = Tf1024VecState::init(&key1, &[0, 0]);
        proof {
            assert(column(state.p, 0) =~= Seq::new(16, |i: int| 0u64));
            assert(seq![0u64, 0] =~= [0u64, 0]@);
        }
        let ok1 = state.check_block0(&ref1, 1, intf);
        proof {
            if ok1 {
                assert(threefish1024(state.k@, state.t@, column(state.p, 0)) =~= tf_ref1()) by {
                    assert forall|i: int| 0 <= i < 16 implies threefish1024(state.k@, state.t@, column(state.p, 0))[i] == tf_ref1()[i] by {
                        assert(state.v[i][0] == ref1@[i]);
                    }
                }
            } else {
                let i = choose|i: int| 0 <= i < 16 && state.v[i][0] != ref1@[i];
                assert(state.v[i][0] == threefish1024(state.k@, state.t@, column(state.p, 0))[i]);
            }
        }
        if !ok1 {
            return false;
        }
        let tweak2: [u64; 2] = [0x0706050403020100, 0x0F0E0D0C0B0A0908];
        assert(tweak2@ =~= tf_tweak2());
        let mut state = Tf1024VecState::init(&key2, &tweak2);
        let mut i: usize = 0;
        while i < TF1024_NWORDS
            invariant
                i <= 16,
                state.k@ == tf_extend_key(tf_key2()),
                state.t@ == tf_extend_tweak(tf_tweak2()),
                plain2@ == tf_plain2(),
                forall|j: int| 0 <= j < i ==> #[trigger] state.p[j][0] == plain2@[j],
            decreases 16 - i,
        {
            let w = plain2[i];
            let row: [u64; 4] = if i == 0 {
                [w, w + 1, w + 2, w + 3]
            } else {
                [w; 4]
            };
            state.p[i] = row;
            i = i + 1;
        }
        state.block();
        proof {
            assert(column(state.p, 0) =~= tf_plain2());
        }
        let ok2 = state.check_block0(&ref2, 2, intf);
        proof {
            if ok2 {
                assert(threefish1024(state.k@, state.t@, column(state.p, 0)) =~= tf_ref2()) by {
                    assert forall|i: int| 0 <= i < 16 implies threefish1024(state.k@, state.t@, column(state.p, 0))[i] == tf_ref2()[i] by {
                        assert(state.v[i][0] == ref2@[i]);
                    }
                }
            } else {
                let i = choose|i: int| 0 <= i < 16 && state.v[i][0] != ref2@[i];
                assert(state.v[i][0] == threefish1024(state.k@, state.t@, column(state.p, 0))[i]);
            }
        }
        if !ok2 {
            return false;
        }
        intf.rust_printf("All tests passed\n");
        true
    }
}

} // verus!
