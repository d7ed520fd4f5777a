# smokerand_rs

Building blocks for pseudorandom number generator plugins of the SmokeRand
test framework, with their behaviour proved by Verus.

* `src/` — the verified library:
  * `prng` — the `Prng` trait: a generator as a state machine with a
    specified step and output; and `Plugin`, its creation from the
    framework's seeds and its self-test;
  * `cwrap` — what the framework asks of a generator (one output, the
    wrapping sum of many outputs, creation, the self-test code), with the
    laws relating them;
  * `caller` — the seeds and the text output the framework offers
    (`SeedSource`, `PrintfExt`), the 128-bit seed join and C-string bytes;
  * `output`, `sealed` — the two output word types;
  * `numfmt`, `text` — hexadecimal and decimal text, string concatenation;
  * `generators` — LCG32, SplitMix64, LCG128, KISS2003, the
    `a * x mod 2^127 - 1` LCG, the multiply-with-carry family MWCFP and
    counter-mode Threefish-1024, each proved against its mathematical
    definition.
* `app/` — the C side: the framework's interface table and generator
  description (`repr(C)`), the `extern "C"` entry points and the plugin
  macros.
* `tests/` — tests against reference values.
