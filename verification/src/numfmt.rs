use vstd::prelude::*;

verus! {

/// The upper-case hexadecimal digit for `d < 16`.
pub open spec fn hex_char(d: nat) -> char {
    if d < 10 {
        (48 + d) as char
    } else {
        (55 + d) as char
    }
}

/// The upper-case hexadecimal digits of `v`, most significant first,
/// without leading zeros ("0" for zero).
pub open spec fn hex_digits(v: nat) -> Seq<char>
    decreases v,
{
    if v < 16 {
        seq![hex_char(v)]
    } else {
        hex_digits(v / 16).push(hex_char(v % 16))
    }
}

/// `v` in upper-case hexadecimal, padded with zeros on the left to at
/// least `width` digits, as `{:0width$X}` writes it.
pub open spec fn hex_upper(v: nat, width: nat) -> Seq<char> {
    let d = hex_digits(v);
    let pad: nat = if width > d.len() {
        (width - d.len()) as nat
    } else {
        0
    };
    Seq::new(pad, |i: int| '0') + d
}

/// Appends `c` to `s` with std's `String::push`, which adds the
/// character at the end and changes nothing else.
#[verifier::external_body]
fn push_char(s: &mut String, c: char)
    ensures
        final(s)@ == old(s)@.push(c),
{
    s.push(c);
}

/// The upper-case hexadecimal digit for `d`.
fn digit_char(d: u64) -> (c: char)
    requires
        d < 16,
    ensures
        c == hex_char(d as nat),
{
    if d < 10 {
        ((48 + d) as u8) as char
    } else {
        ((55 + d) as u8) as char
    }
}

/// The number of hexadecimal digits of `v`.
fn hex_len(v: u64) -> (r: usize)
    ensures
        r == hex_digits(v as nat).len(),
    decreases v,
{
    if v < 16 {
        1
    } else {
        let n = hex_len(v / 16);
        assert(n <= 16) by {
            assert(pow16(15) == 0x1000_0000_0000_0000) by {
                reveal_with_fuel(pow16, 16);
            }
            lemma_hex_len_bound(v as nat / 16, 15);
        }
        n + 1
    }
}

spec fn pow16(k: nat) -> nat
    decreases k,
{
    if k == 0 {
        1
    } else {
        16 * pow16((k - 1) as nat)
    }
}

proof fn lemma_hex_len_bound(v: nat, k: nat)
    requires
        k >= 1,
        v < pow16(k),
    ensures
        hex_digits(v).len() <= k,
    decreases v,
{
    if v >= 16 {
        assert(k >= 2) by {
            if k == 1 {
                assert(pow16(1) == 16 * pow16(0));
            }
        }
        assert(v / 16 < pow16((k - 1) as nat));
        lemma_hex_len_bound(v / 16, (k - 1) as nat);
    }
}

/// Appends the hexadecimal digits of `v` to `s`.
fn push_hex_digits(s: &mut String, v: u64)
    ensures
        final(s)@ == old(s)@ + hex_digits(v as nat),
    decreases v,
{
    if v >= 16 {
        push_hex_digits(s, v / 16);
    }
    push_char(s, digit_char(v % 16));
    proof {
        if v < 16 {
            vstd::arithmetic::div_mod::lemma_small_mod(v as nat, 16);
        }
    }
}

/// Appends `v` in upper-case hexadecimal, zero-padded to at least `width`
/// digits.
pub fn push_hex_upper(s: &mut String, v: u64, width: usize)
    ensures
        final(s)@ == old(s)@ + hex_upper(v as nat, width as nat),
{
    let n = hex_len(v);
    let ghost start = s@;
    let mut i = n;
    while i < width
        invariant
            n <= i,
            i <= width || i == n,
            s@ == start + Seq::new((i - n) as nat, |j: int| '0'),
        decreases width - i,
    {
        push_char(s, '0');
        i = i + 1;
        assert(s@ =~= start + Seq::new((i - n) as nat, |j: int| '0'));
    }
    push_hex_digits(s, v);
    assert(s@ =~= start + hex_upper(v as nat, width as nat));
}

/// `v` in upper-case hexadecimal, zero-padded to at least `width` digits.
pub fn hex_string(v: u64, width: usize) -> (r: String)
    ensures
        r@ == hex_upper(v as nat, width as nat),
{
    let mut s = String::new();
    push_hex_upper(&mut s, v, width);
    assert(s@ =~= hex_upper(v as nat, width as nat));
    s
}


/// The decimal digits of `v`, most significant first, without leading
/// zeros ("0" for zero), as `{}` writes it.
pub open spec fn dec_digits(v: nat) -> Seq<char>
    decreases v,
{
    if v < 10 {
        seq![(48 + v) as char]
    } else {
        dec_digits(v / 10).push((48 + v % 10) as char)
    }
}

/// Appends the decimal digits of `v` to `s`.
pub fn push_decimal(s: &mut String, v: u64)
    ensures
        final(s)@ == old(s)@ + dec_digits(v as nat),
    decreases v,
{
    if v >= 10 {
        push_decimal(s, v / 10);
    }
    let d = v % 10;
    push_char(s, ((48 + d) as u8) as char);
    proof {
        if v < 10 {
            vstd::arithmetic::div_mod::lemma_small_mod(v as nat, 10);
        }
    }
}

} // verus!
