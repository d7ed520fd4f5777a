//! Generators built on [`crate::prng::Prng`].

pub mod lcg127prime;
pub mod mwcfp;
pub mod lcg32;
pub mod splitmix;
pub mod lcg128;
pub mod kiss2003;
pub mod threefish1024;
