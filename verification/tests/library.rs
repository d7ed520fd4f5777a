use std::cell::RefCell;

use smokerand_rs::caller::{c_string_bytes, join_seed_words, to_c_string, PrintfExt, SeedSource};
use smokerand_rs::cwrap::{create, get_bits, get_sum, self_test, self_test_code};
use smokerand_rs::generators::kiss2003::Kiss03State;
use smokerand_rs::generators::lcg127prime::Lcg127PrimeState;
use smokerand_rs::generators::lcg128::Lcg128State;
use smokerand_rs::generators::lcg32::Lcg32State;
use smokerand_rs::generators::mwcfp::{mwcfp_variant_by_name, Mwc128u64, Mwc64u32, MwcFpState, MwcVariant};
use smokerand_rs::generators::splitmix::SplitMixState;
use smokerand_rs::generators::threefish1024::{tf_encrypt, Tf1024VecState};
use smokerand_rs::numfmt::hex_string;
use smokerand_rs::output::PrngOutput;
use smokerand_rs::prng::{Plugin, Prng};
use smokerand_rs::text::const_concat;

/// A stand-in for the framework: hands out seeds from lists and keeps
/// what is printed.
struct FakeCaller {
    seeds32: RefCell<Vec<u32>>,
    seeds64: RefCell<Vec<u64>>,
    printed: RefCell<String>,
}

impl FakeCaller {
    fn new(seeds32: Vec<u32>, seeds64: Vec<u64>) -> Self {
        FakeCaller {
            seeds32: RefCell::new(seeds32),
            seeds64: RefCell::new(seeds64),
            printed: RefCell::new(String::new()),
        }
    }
}

impl SeedSource for FakeCaller {
    fn seed32(&self) -> Option<u32> {
        let mut v = self.seeds32.borrow_mut();
        if v.is_empty() {
            None
        } else {
            Some(v.remove(0))
        }
    }

    fn seed64(&self) -> Option<u64> {
        let mut v = self.seeds64.borrow_mut();
        if v.is_empty() {
            None
        } else {
            Some(v.remove(0))
        }
    }
}

impl PrintfExt for FakeCaller {
    fn rust_printf(&self, text: &str) -> i32 {
        self.printed.borrow_mut().push_str(text);
        text.len() as i32
    }

    fn print_newline(&self) -> i32 {
        self.printed.borrow_mut().push('\n');
        1
    }
}

#[test]
fn test_const_concat() {
    let s = const_concat("Hello", " World");
    assert_eq!(s, "Hello World");
}

#[test]
fn test_join_seed_words() {
    assert_eq!(join_seed_words(1, 2), (1u128 << 64) | 2);
    assert_eq!(join_seed_words(0xFFFF_FFFF_FFFF_FFFF, 0), 0xFFFF_FFFF_FFFF_FFFF_0000_0000_0000_0000);
}

#[test]
fn test_seed128_takes_first_seed_as_high_half() {
    let intf = FakeCaller::new(vec![], vec![7, 9]);
    assert_eq!(intf.seed128(), Some((7u128 << 64) | 9));
    assert_eq!(intf.seed128(), None);
}

#[test]
fn test_c_string_bytes() {
    assert_eq!(c_string_bytes("%s"), Some(vec![b'%', b's', 0]));
    assert_eq!(c_string_bytes(""), Some(vec![0]));
    assert_eq!(c_string_bytes("a\0b"), None);
    assert_eq!(to_c_string("Hi"), vec![b'H', b'i', 0]);
}

#[test]
fn test_rust_println_prints_newline_after_text() {
    let intf = FakeCaller::new(vec![], vec![]);
    let r = intf.rust_println("abc");
    assert_eq!(r, 1);
    assert_eq!(intf.printed.borrow().as_str(), "abc\n");
}

#[test]
fn test_hex_string() {
    assert_eq!(hex_string(0, 0), "0");
    assert_eq!(hex_string(255, 0), "FF");
    assert_eq!(hex_string(255, 4), "00FF");
    assert_eq!(hex_string(0x8E878929D96521D7, 16), "8E878929D96521D7");
    assert_eq!(hex_string(0xAB, 1), "AB");
    assert_eq!(hex_string(u64::MAX, 0), "FFFFFFFFFFFFFFFF");
}

#[test]
fn test_output_widths() {
    assert_eq!(<u32 as PrngOutput>::bits(), 32);
    assert_eq!(<u64 as PrngOutput>::bits(), 64);
    assert_eq!(Lcg32State::bits(), 32);
    assert_eq!(SplitMixState::bits(), 64);
    assert_eq!(<u32 as PrngOutput>::from_u32(5).to_u64(), 5);
}

#[test]
fn test_lcg32_values() {
    let mut g = Lcg32State { x: 1 };
    assert_eq!(g.next(), 1015568748);
    assert_eq!(g.x, 1015568748);
    let mut g = Lcg32State { x: 0xFFFF_FFFF };
    assert_eq!(g.next(), 1013904223u32.wrapping_sub(1664525));
}

#[test]
fn test_splitmix_reference_output() {
    let mut g = SplitMixState { x: 0 };
    assert_eq!(g.next(), 0xE220A8397B1DCDAF);
    assert_eq!(g.next(), 0x6E789E6AA1B965F4);
}

#[test]
fn test_splitmix_self_test() {
    let intf = FakeCaller::new(vec![], vec![42]);
    assert!(SplitMixState::self_test(&intf));
    let intf = FakeCaller::new(vec![], vec![]);
    assert!(!SplitMixState::self_test(&intf));
}

#[test]
fn test_lcg128_self_test() {
    let intf = FakeCaller::new(vec![], vec![]);
    assert!(Lcg128State::self_test(&intf));
    assert_eq!(
        intf.printed.borrow().as_str(),
        "Result: 8E878929D96521D7; reference value: 8E878929D96521D7\n"
    );
}

#[test]
fn test_kiss2003_self_test() {
    let intf = FakeCaller::new(vec![], vec![]);
    assert!(Kiss03State::self_test(&intf));
    assert_eq!(
        intf.printed.borrow().as_str(),
        "Observed: 0x8E41D4F8; expected: 0x8E41D4F8\n"
    );
}

#[test]
fn test_kiss2003_seeding() {
    let g = Kiss03State::from_seeds(0x1111_2222_0000_0000, 0xAAAA_BBBB_FFFF_FFFF);
    assert_eq!(g.x, 0x1111_2222);
    assert_eq!(g.y, 0x12345678);
    assert_eq!(g.z, 0xAAAA_BBBB);
    assert_eq!(g.c, 0x1000_0000);
    let g = Kiss03State::from_seeds(0x0000_0001_0000_0005, 0);
    assert_eq!(g.y, 5);
    assert_eq!(g.c, 1);
}

#[test]
fn test_lcg127prime_self_test() {
    let intf = FakeCaller::new(vec![], vec![]);
    assert!(Lcg127PrimeState::self_test(&intf));
    assert_eq!(
        intf.printed.borrow().as_str(),
        "Result: E490C2A6C3E38BCD; reference value: E490C2A6C3E38BCD\n"
    );
}

#[test]
fn test_lcg127prime_seeding_and_fixed_point() {
    let g = Lcg127PrimeState::from_seed(1);
    assert_eq!(g.get_state(), 0x12345678);
    let g = Lcg127PrimeState::from_seed(10);
    assert_eq!(g.get_state(), 5);
    let mut g = Lcg127PrimeState::from_seed(u128::MAX);
    assert_eq!(g.get_state(), (1u128 << 127) - 1);
    assert_eq!(g.next(), u64::MAX);
    assert_eq!(g.get_state(), (1u128 << 127) - 1);
}

#[test]
fn test_lcg127prime_matches_modular_product() {
    let p: u128 = (1u128 << 127) - 1;
    let mut g = Lcg127PrimeState::from_state(3);
    let out = g.get_bits_generic_raw(5);
    assert_eq!(g.get_state(), 15);
    assert_eq!(out, 15);
    // (2^126) * 4 = 2^128 = 2 mod p
    let mut g = Lcg127PrimeState::from_state(1u128 << 126);
    g.get_bits_generic_raw(4);
    assert_eq!(g.get_state(), 2);
    let mut g = Lcg127PrimeState::from_state(p - 1);
    g.get_bits_generic_raw(u64::MAX);
    // (p - 1) * a = -a mod p
    assert_eq!(g.get_state(), p - u64::MAX as u128);
}

#[test]
fn test_mwc64u32_raw_reference_values() {
    let mut g =
        MwcFpState::<u32, 2, 4291122658, true>::from_words([0x003AB792, 0x00000001], 0x9BDC771C)
            .unwrap();
    for _ in 0..20000 {
        g.next_raw();
    }
    let expected: [u32; 8] = [
        0x662AE453, 0xC23220FD, 0xC82713AC, 0xE0F99B0F, 0x23DD0069, 0x885B140D, 0xC2589D18,
        0x22E5CCFB,
    ];
    for e in expected {
        assert_eq!(g.next_raw(), e);
    }
}

#[test]
fn test_mwc128u64_raw_reference_values() {
    let mut g = MwcFpState::<u64, 2, 17741297344439402706, true>::from_words(
        [0x0A2DE7FD1B0B2669, 0x0000000000000001],
        0xE93C76E554BC3DDE,
    )
    .unwrap();
    for _ in 0..20000 {
        g.next_raw();
    }
    let expected: [u64; 8] = [
        0x481CB82ECABB99BA, 0x73A05D57E9365E0E, 0x41E47A1CE2DBDE18, 0xB18E46EC2E938B17,
        0x8D667D5038185DD4, 0x21054F6D3FF80F10, 0x1B6CD39E1B27B198, 0x87DD038B41026317,
    ];
    for e in expected {
        assert_eq!(g.next_raw(), e);
    }
}

#[test]
fn test_mwc64u32_scrambled_output() {
    let mut g = Mwc64u32::from_words([0x003AB792, 0x00000001], 0x9BDC771C).unwrap();
    for _ in 0..20000 {
        g.next();
    }
    let expected: [u32; 4] = [0x291AAB63, 0x9BCE7901, 0xB95C62D7, 0x9E36E5C0];
    for e in expected {
        assert_eq!(g.next(), e);
    }
}

#[test]
fn test_mwc128u64_scrambled_output() {
    let mut g =
        Mwc128u64::from_words([0x0A2DE7FD1B0B2669, 0x0000000000000001], 0xE93C76E554BC3DDE)
            .unwrap();
    for _ in 0..20000 {
        g.next();
    }
    let expected: [u64; 4] =
        [0x6100EA754A612EA7, 0x5E4DDBCE756DD908, 0x8D38BDF801256D7A, 0x0632FF5F91BD21D2];
    for e in expected {
        assert_eq!(g.next(), e);
    }
}

#[test]
fn test_mwc_from_words_rejects_large_carry() {
    assert!(Mwc64u32::from_words([1, 2], 4291122658).is_none());
    assert!(Mwc64u32::from_words([1, 2], 4291122657).is_some());
}

#[test]
fn test_mwc_seeding_and_self_test() {
    let intf = FakeCaller::new(vec![5, 6], vec![]);
    assert!(Mwc64u32::new(&intf).is_some());
    let intf = FakeCaller::new(vec![5], vec![]);
    assert!(Mwc64u32::new(&intf).is_none());
    let intf = FakeCaller::new(vec![], vec![]);
    assert!(Mwc128u64::self_test(&intf));
    assert_eq!(intf.printed.borrow().as_str(), "Running MWCFP self-tests...\n");
}

#[test]
fn test_get_sum_equals_wrapping_sum_of_get_bits() {
    let mut a = SplitMixState { x: 99 };
    let mut b = SplitMixState { x: 99 };
    let mut expected: u64 = 0;
    for _ in 0..1000 {
        expected = expected.wrapping_add(get_bits(&mut a));
    }
    assert_eq!(get_sum(&mut b, 1000), expected);
    assert_eq!(a.x, b.x);
    let mut c = Lcg32State { x: 7 };
    assert_eq!(get_sum(&mut c, 0), 0);
    assert_eq!(c.x, 7);
}

#[test]
fn test_get_sum_splits() {
    let mut a = Kiss03State::from_seeds(123, 456);
    let mut b = Kiss03State::from_seeds(123, 456);
    let whole = get_sum(&mut a, 300);
    let first = get_sum(&mut b, 100);
    let second = get_sum(&mut b, 200);
    assert_eq!(whole, first.wrapping_add(second));
}

#[test]
fn test_create_and_self_test_codes() {
    let none: Option<&FakeCaller> = None;
    assert!(create::<Lcg32State, FakeCaller>(none).is_none());
    assert_eq!(self_test::<Lcg32State, FakeCaller>(none), 0);
    let intf = FakeCaller::new(vec![11], vec![]);
    let g = create::<Lcg32State, FakeCaller>(Some(&intf)).unwrap();
    assert_eq!(g.x, 11);
    let intf = FakeCaller::new(vec![], vec![]);
    assert_eq!(self_test::<Lcg32State, FakeCaller>(Some(&intf)), 1);
    assert_eq!(self_test::<SplitMixState, FakeCaller>(Some(&intf)), 0);
    assert_eq!(self_test_code(true), 1);
    assert_eq!(self_test_code(false), 0);
}

#[test]
fn test_threefish1024_self_test() {
    let intf = FakeCaller::new(vec![], vec![]);
    assert!(Tf1024VecState::self_test(&intf));
    assert_eq!(
        intf.printed.borrow().as_str(),
        "Testing Threefish-1024 vectorized implementation...\nAll tests passed\n"
    );
}

#[test]
fn test_threefish1024_output_order_and_refill() {
    let key = [3u64; 16];
    let mut g = Tf1024VecState::init(&key, &[0, 0]);
    let first = g.v;
    let mut out = Vec::new();
    for _ in 0..64 {
        out.push(g.next());
    }
    for lane in 0..4 {
        for i in 0..16 {
            assert_eq!(out[lane * 16 + i], first[i][lane]);
        }
    }
    // the next word comes from the blocks with counters 4..8
    let w = g.next();
    assert_eq!(g.p[0], [4, 5, 6, 7]);
    let mut col = [0u64; 16];
    col[0] = 4;
    let enc = tf_encrypt(&g.k, &g.t, col);
    assert_eq!(w, enc[0]);
}

#[test]
fn test_threefish1024_seeding() {
    let intf = FakeCaller::new(vec![], (1..=16).collect());
    let g = Tf1024VecState::new(&intf).unwrap();
    assert_eq!(&g.k[..16], &(1..=16).collect::<Vec<u64>>()[..]);
    let parity = (1..=16u64).fold(0x1BD11BDAA9FC1A22u64, |a, b| a ^ b);
    assert_eq!(g.k[16], parity);
    let intf = FakeCaller::new(vec![], (1..=15).collect());
    assert!(Tf1024VecState::new(&intf).is_none());
}

#[test]
fn test_kiss2003_stays_well_seeded() {
    let mut g = Kiss03State::from_seeds(0, 0);
    assert_eq!(g.y, 0x12345678);
    assert_eq!(g.c, 1);
    for _ in 0..10000 {
        g.next();
        assert_ne!(g.y, 0);
        assert!((g.c as u64) < 698769069);
        assert!(g.z != 0 || g.c != 0);
    }
}

#[test]
fn test_lcg127prime_state_never_zero() {
    let mut g = Lcg127PrimeState::from_state(1);
    for _ in 0..10000 {
        let out = g.next();
        let s = g.get_state();
        assert_ne!(s, 0);
        assert!(s < (1u128 << 127));
        assert_eq!(out, s as u64);
    }
}

#[test]
fn test_lcg128_step_value() {
    let mut g = Lcg128State { x: 1 };
    let out = g.next();
    assert_eq!(g.x, 18000690696906969069u128 + 1);
    assert_eq!(out, 0);
    let mut g = Lcg128State { x: 1u128 << 64 };
    let out = g.next();
    assert_eq!(out, 18000690696906969069u64);
}

#[test]
fn test_mwcfp_variant_by_name() {
    assert_eq!(mwcfp_variant_by_name("mwc64u32"), Some(MwcVariant::Mwc64u32));
    assert_eq!(mwcfp_variant_by_name("mwc128u64"), Some(MwcVariant::Mwc128u64));
    assert_eq!(mwcfp_variant_by_name(""), None);
    assert_eq!(mwcfp_variant_by_name("mwc64u3"), None);
    assert_eq!(MwcVariant::Mwc128u64.tag(), "mwc128u64");
}

#[test]
fn test_rust_println_returns_failed_print() {
    assert_eq!(Failing.rust_println("x"), -1);
}

/// A printer whose every print fails.
struct Failing;

impl PrintfExt for Failing {
    fn rust_printf(&self, _text: &str) -> i32 {
        -1
    }

    fn print_newline(&self) -> i32 {
        panic!("no line break after a failed print")
    }
}

#[test]
fn test_32_bit_outputs_sum_without_wrapping() {
    let mut a = Kiss03State::from_seeds(2024, 77);
    let mut b = Kiss03State::from_seeds(2024, 77);
    let mut exact: u128 = 0;
    for _ in 0..5000 {
        let v = get_bits(&mut a);
        assert!(v < (1u64 << 32));
        exact += v as u128;
    }
    assert!(exact > 0);
    assert_eq!(get_sum(&mut b, 5000) as u128, exact);
    let mut c = Lcg32State { x: 0xFFFF_FFFF };
    let mut d = Lcg32State { x: 0xFFFF_FFFF };
    let mut exact: u128 = 0;
    for _ in 0..3 {
        exact += get_bits(&mut c) as u128;
    }
    assert_eq!(get_sum(&mut d, 3) as u128, exact);
}

#[test]
fn test_framework_self_test_reports_generator_result() {
    let intf = FakeCaller::new(vec![], vec![]);
    assert_eq!(self_test::<Kiss03State, FakeCaller>(Some(&intf)), 1);
    assert_eq!(self_test::<Lcg128State, FakeCaller>(Some(&intf)), 1);
    let intf = FakeCaller::new(vec![], vec![42]);
    assert_eq!(self_test::<SplitMixState, FakeCaller>(Some(&intf)), 1);
    let intf = FakeCaller::new(vec![], vec![]);
    assert!(create::<SplitMixState, FakeCaller>(Some(&intf)).is_none());
}

#[test]
fn test_mwc_small_multiplier_is_accepted() {
    assert!(MwcFpState::<u32, 2, 1, false>::from_words([1, 2], 5).is_some());
    assert!(MwcFpState::<u32, 2, 0, true>::from_words([1, 2], 0).is_some());
    let intf = FakeCaller::new(vec![5, 6], vec![]);
    let mut g = MwcFpState::<u32, 2, 1, true>::new(&intf).unwrap();
    let _ = g.next_raw();
}
