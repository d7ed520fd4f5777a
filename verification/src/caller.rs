use vstd::prelude::*;
use vstd::string::StringSliceAdditionalSpecFns;

verus! {

/// Memory figures reported by the framework, in bytes.
#[derive(Debug, Clone, Copy, PartialEq, Eq)]
pub struct RamInfo {
    pub total_ram: i64,
    pub available_ram: i64,
}

/// The value of the 128-bit seed made of two 64-bit seeds, `hi` being the
/// upper half.
pub open spec fn joined_seed(hi: u64, lo: u64) -> int {
    hi as int * 0x1_0000_0000_0000_0000 + lo as int
}

/// Joins two 64-bit seeds into one 128-bit seed, `hi` in the upper half
/// and `lo` in the lower half.
pub fn join_seed_words(hi: u64, lo: u64) -> (r: u128)
    ensures
        r == joined_seed(hi, lo),
        (r >> 64u32) as u64 == hi,
        r as u64 == lo,
{
    let r: u128 = ((hi as u128) << 64u32) | (lo as u128);
    assert(((hi as u128) << 64u32) | (lo as u128) == (hi as u128) * 0x1_0000_0000_0000_0000u128
        + (lo as u128)) by (bit_vector);
    assert((((((hi as u128) << 64u32) | (lo as u128)) >> 64u32) as u64 == hi) && ((((hi as u128)
        << 64u32) | (lo as u128)) as u64 == lo)) by (bit_vector);
    r
}

/// The 128-bit seed made of the first and the second 64-bit draw: the
/// first forms the upper half; `None` when either draw was refused.
pub open spec fn seed128_from_draws(first: Option<u64>, second: Option<u64>) -> Option<u128> {
    match first {
        None => None,
        Some(hi) => match second {
            None => None,
            Some(lo) => Some(joined_seed(hi, lo) as u128),
        },
    }
}

/// Joins two 64-bit draws into a 128-bit seed, `first` forming the upper
/// half; `None` when either draw was refused.
pub fn join_seed_draws(first: Option<u64>, second: Option<u64>) -> (r: Option<u128>)
    ensures
        r == seed128_from_draws(first, second),
{
    match first {
        None => None,
        Some(hi) => match second {
            None => None,
            Some(lo) => Some(join_seed_words(hi, lo)),
        },
    }
}

/// The seeds that the framework hands to a generator.
///
/// Each call returns a fresh seed, or `None` when the framework offers no
/// seed of that width. Nothing is known of the seeds' values.
pub trait SeedSource {
    /// A fresh 32-bit seed.
    fn seed32(&self) -> Option<u32>;

    /// A fresh 64-bit seed.
    fn seed64(&self) -> Option<u64>;

    /// A fresh 128-bit seed made of two 64-bit seeds, the first one drawn
    /// forming the upper half. `None` when a 64-bit seed is refused; the
    /// second seed is drawn only when the first was given.
    fn seed128(&self) -> (r: Option<u128>)
        ensures
            exists|first: Option<u64>, second: Option<u64>|
                {
                    &&& call_ensures(Self::seed64, (self,), first)
                    &&& (first is Some ==> call_ensures(Self::seed64, (self,), second))
                    &&& r == seed128_from_draws(first, second)
                },
    {
        let first = self.seed64();
        match first {
            None => join_seed_draws(first, None),
            Some(_) => {
                let second = self.seed64();
                join_seed_draws(first, second)
            },
        }
    }
}

/// One seed asked of the framework, with what came back: `None` when the
/// framework refused it.
pub enum SeedDraw {
    Bits32(Option<u32>),
    Bits64(Option<u64>),
    Bits128(Option<u128>),
}

/// The seeds drawn from a seed source, in the order in which they were
/// drawn.
///
/// Only the draw functions of this module add to a record, each with the
/// seed that its one call of the seed source gave, so a record lists the
/// calls that were made and what each of them returned, in order.
pub struct SeedLog {
    draws: Ghost<Seq<SeedDraw>>,
}

impl SeedLog {
    /// The draws recorded so far, oldest first.
    pub closed spec fn draws(self) -> Seq<SeedDraw> {
        self.draws@
    }

    /// An empty record.
    pub fn new() -> (r: Self)
        ensures
            r.draws() == Seq::<SeedDraw>::empty(),
    {
        SeedLog { draws: Ghost(Seq::empty()) }
    }
}

/// Draws one 32-bit seed from `intf` and records it in `log`.
pub fn draw32<C: SeedSource>(intf: &C, log: &mut SeedLog) -> (r: Option<u32>)
    ensures
        call_ensures(C::seed32, (intf,), r),
        final(log).draws() == old(log).draws().push(SeedDraw::Bits32(r)),
{
    let r = intf.seed32();
    log.draws = Ghost(log.draws@.push(SeedDraw::Bits32(r)));
    r
}

/// Draws one 64-bit seed from `intf` and records it in `log`.
pub fn draw64<C: SeedSource>(intf: &C, log: &mut SeedLog) -> (r: Option<u64>)
    ensures
        call_ensures(C::seed64, (intf,), r),
        final(log).draws() == old(log).draws().push(SeedDraw::Bits64(r)),
{
    let r = intf.seed64();
    log.draws = Ghost(log.draws@.push(SeedDraw::Bits64(r)));
    r
}

/// Draws one 128-bit seed from `intf` (see [`SeedSource::seed128`]) and
/// records it in `log`.
pub fn draw128<C: SeedSource>(intf: &C, log: &mut SeedLog) -> (r: Option<u128>)
    ensures
        call_ensures(C::seed128, (intf,), r),
        final(log).draws() == old(log).draws().push(SeedDraw::Bits128(r)),
{
    let r = intf.seed128();
    log.draws = Ghost(log.draws@.push(SeedDraw::Bits128(r)));
    r
}

/// Text output through the framework's `printf`.
///
/// A negative result reports a failure, as `printf` does.
pub trait PrintfExt {
    /// Prints `text` as it stands.
    fn rust_printf(&self, text: &str) -> i32;

    /// Prints a line break.
    fn print_newline(&self) -> i32;

    /// Prints `text` followed by a line break; the line break is printed
    /// only when `text` was, and the first failure is what is returned.
    fn rust_println(&self, text: &str) -> (r: i32)
        ensures
            exists|r1: i32|
                {
                    &&& call_ensures(Self::rust_printf, (self, text), r1)
                    &&& r1 < 0 ==> r == r1
                    &&& r1 >= 0 ==> call_ensures(Self::print_newline, (self,), r)
                },
    {
        let result = self.rust_printf(text);
        if result >= 0 {
            self.print_newline()
        } else {
            result
        }
    }
}

/// Whether `bytes` holds a zero byte, which a C string cannot hold inside.
pub open spec fn has_nul(bytes: Seq<u8>) -> bool {
    exists|i: int| 0 <= i < bytes.len() && bytes[i] == 0u8
}

/// The bytes of `s` as a C string: its UTF-8 bytes followed by a zero
/// byte, or `None` when `s` itself holds a zero byte.
pub fn c_string_bytes(s: &str) -> (r: Option<Vec<u8>>)
    ensures
        r is None <==> has_nul(s.spec_bytes()),
        r matches Some(v) ==> v@ == s.spec_bytes().push(0u8),
{
    let bytes = s.as_bytes();
    let mut out: Vec<u8> = Vec::new();
    let mut i: usize = 0;
    while i < bytes.len()
        invariant
            bytes@ == s.spec_bytes(),
            i <= bytes.len(),
            out@ == bytes@.subrange(0, i as int),
            forall|j: int| 0 <= j < i ==> bytes@[j] != 0u8,
        decreases bytes.len() - i,
    {
        if bytes[i] == 0u8 {
            return None;
        }
        out.push(bytes[i]);
        i = i + 1;
        assert(out@ == bytes@.subrange(0, i as int));
    }
    assert(out@ == bytes@);
    out.push(0u8);
    Some(out)
}

/// The bytes of `s` as a C string: its UTF-8 bytes followed by a zero
/// byte. `s` must hold no zero byte.
pub fn to_c_string(s: &str) -> (r: Vec<u8>)
    requires
        !has_nul(s.spec_bytes()),
    ensures
        r@ == s.spec_bytes().push(0u8),
{
    match c_string_bytes(s) {
        Some(v) => v,
        None => {
            assert(false);
            Vec::new()
        },
    }
}

} // verus!
