//! Building blocks for pseudorandom number generator plugins of the
//! SmokeRand test framework: the generator interface, the helpers that
//! drive a generator on the framework's behalf, and a collection of
//! verified generators.

mod sealed;
pub mod output;
pub mod caller;
pub mod prng;
pub mod cwrap;
pub mod text;
pub mod generators;
pub mod numfmt;
