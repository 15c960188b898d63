use vstd::prelude::*;
use rand::distributions::Distribution;
use rand::SeedableRng;

verus! {

/// The increment of the golden-ratio sequence that seeds derive their gammas from.
pub const GOLDEN_GAMMA: u64 = 0x9e3779b97f4a7c15;

/// A splittable pseudo-random source: an additive recurrence over `value`
/// whose step `gamma` is odd, so that the recurrence has full period.
#[derive(Clone, Copy, Debug, PartialEq, Eq, Structural)]
pub struct Seed {
    pub value: u64,
    pub gamma: u64,
}

impl Seed {
    /// A seed is well formed when its step is odd.
    pub open spec fn wf(&self) -> bool {
        self.gamma % 2 == 1
    }
}

pub open spec fn spec_mix64(x: u64) -> u64 {
    let y = (x ^ (x >> 33u64)).wrapping_mul(0xff51afd7ed558ccd);
    let z = (y ^ (y >> 33u64)).wrapping_mul(0xc4ceb9fe1a85ec53);
    z ^ (z >> 33u64)
}

pub open spec fn spec_mix64_variant13(x: u64) -> u64 {
    let y = (x ^ (x >> 30u64)).wrapping_mul(0xbf58476d1ce4e5b9);
    let z = (y ^ (y >> 27u64)).wrapping_mul(0x94d049bb133111eb);
    z ^ (z >> 31u64)
}

/// The 32-bit mixer: the high half of the 64-bit mixing of a 32-bit word.
pub open spec fn spec_mix32(x: u32) -> u32 {
    let x64 = x as u64;
    let y = (x64 ^ (x64 >> 33u64)).wrapping_mul(0xff51afd7ed558ccd);
    let z = (y ^ (y >> 33u64)).wrapping_mul(0xc4ceb9fe1a85ec53);
    (z >> 32u64) as u32
}

/// The number of bits set among the lowest `i` bits of `x`.
pub open spec fn ones_below(x: u64, i: nat) -> nat
    decreases i,
{
    if i == 0 {
        0
    } else {
        ones_below(x, (i - 1) as nat) + ((x >> ((i - 1) as u64)) & 1u64) as nat
    }
}

/// The number of bits set in `x`.
pub open spec fn ones(x: u64) -> nat {
    ones_below(x, 64)
}

pub open spec fn spec_mix_gamma(x: u64) -> u64 {
    let y = spec_mix64_variant13(x) | 1u64;
    if ones(y ^ (y >> 1u64)) < 24 {
        y ^ 0xaaaaaaaaaaaaaaaa
    } else {
        y
    }
}

pub open spec fn spec_from(x: u64) -> Seed {
    Seed { value: spec_mix64(x), gamma: spec_mix_gamma(x.wrapping_add(GOLDEN_GAMMA)) }
}

/// The seed after one step of the recurrence.
pub open spec fn spec_next(s: Seed) -> Seed {
    Seed { value: s.value.wrapping_add(s.gamma), gamma: s.gamma }
}

/// The two seeds that `split` derives from `s`: the parent advanced twice, and a
/// fresh seed mixed from the two values that were stepped over.
pub open spec fn spec_split(s: Seed) -> (Seed, Seed) {
    let s1 = spec_next(s);
    let s2 = spec_next(s1);
    (s2, Seed { value: spec_mix64(s1.value), gamma: spec_mix_gamma(s2.value) })
}

pub open spec fn spec_word64(s: Seed) -> u64 {
    spec_mix64(spec_next(s).value)
}

pub fn mix64(x: u64) -> (r: u64)
    ensures
        r == spec_mix64(x),
{
    let y = (x ^ (x >> 33)).wrapping_mul(0xff51afd7ed558ccd);
    let z = (y ^ (y >> 33)).wrapping_mul(0xc4ceb9fe1a85ec53);
    z ^ (z >> 33)
}

pub fn mix32(x: u32) -> (r: u32)
    ensures
        r == spec_mix32(x),
{
    let x64 = x as u64;
    let y = (x64 ^ (x64 >> 33)).wrapping_mul(0xff51afd7ed558ccd);
    let z = (y ^ (y >> 33)).wrapping_mul(0xc4ceb9fe1a85ec53);
    (z >> 32) as u32
}

pub fn mix64_variant13(x: u64) -> (r: u64)
    ensures
        r == spec_mix64_variant13(x),
{
    let y = (x ^ (x >> 30)).wrapping_mul(0xbf58476d1ce4e5b9);
    let z = (y ^ (y >> 27)).wrapping_mul(0x94d049bb133111eb);
    z ^ (z >> 31)
}

/// Counts the bits set in `x`.
pub fn count_ones(x: u64) -> (r: u32)
    ensures
        r == ones(x),
{
    let mut n: u32 = 0;
    let mut i: u64 = 0;
    while i < 64
        invariant
            i <= 64,
            n == ones_below(x, i as nat),
            n <= i,
        decreases 64 - i,
    {
        let b = (x >> i) & 1;
        assert(((x >> i) & 1u64) <= 1) by (bit_vector);
        n = n + b as u32;
        i = i + 1;
    }
    n
}

pub fn mix_gamma(x: u64) -> (r: u64)
    ensures
        r == spec_mix_gamma(x),
        r % 2 == 1,
{
    let m = mix64_variant13(x);
    let y = m | 1;
    let n = count_ones(y ^ (y >> 1));
    proof {
        assert((m | 1u64) % 2 == 1) by (bit_vector);
        assert(y % 2 == 1 ==> (y ^ 0xaaaaaaaaaaaaaaaau64) % 2 == 1) by (bit_vector);
    }
    if n < 24 {
        y ^ 0xaaaaaaaaaaaaaaaa
    } else {
        y
    }
}

/// Derives a seed from an integer.
pub fn from(x: u64) -> (r: Seed)
    ensures
        r == spec_from(x),
        r.wf(),
{
    let value = mix64(x);
    let gamma = mix_gamma(x.wrapping_add(GOLDEN_GAMMA));
    Seed { value, gamma }
}

/// Advances a seed: returns the new value and the advanced seed.
pub fn next(s: Seed) -> (r: (u64, Seed))
    ensures
        r.1 == spec_next(s),
        r.0 == r.1.value,
{
    let value = s.value.wrapping_add(s.gamma);
    (value, Seed { value, gamma: s.gamma })
}

/// Splits a seed into two.
pub fn split(s0: Seed) -> (r: (Seed, Seed))
    ensures
        r == spec_split(s0),
        r.1.wf(),
        s0.wf() ==> r.0.wf(),
{
    let (v0, s1) = next(s0);
    let (g0, s2) = next(s1);
    let value = mix64(v0);
    let gamma = mix_gamma(g0);
    (s2, Seed { value, gamma })
}

/// A 64-bit word from the seed, and the advanced seed.
pub fn next_word64(s0: Seed) -> (r: (u64, Seed))
    ensures
        r.0 == spec_word64(s0),
        r.1 == spec_next(s0),
{
    let (v0, s1) = next(s0);
    (mix64(v0), s1)
}

/// A 32-bit word from the seed, and the advanced seed.
pub fn next_word32(s0: Seed) -> (r: (u32, Seed))
    ensures
        r.0 == spec_mix32(spec_next(s0).value as u32),
        r.1 == spec_next(s0),
{
    let (v0, s1) = next(s0);
    (mix32(v0 as u32), s1)
}

/// What rand's inclusive integer `Uniform` draws from `lo..=hi` when its random
/// words come from rand's `StdRng` seeded with `word`.
pub uninterp spec fn uniform_pick(lo: i64, hi: i64, word: u64) -> i64;

/// Relies on rand's `Uniform::new_inclusive(lo, hi)` (which panics when `lo > hi`)
/// sampled with rand's `StdRng::seed_from_u64(word)`, a ChaCha generator whose
/// output is fixed by the seed: the draw lies in `lo..=hi` and depends on the
/// three arguments alone.
#[verifier::external_body]
fn uniform_inclusive(lo: i64, hi: i64, word: u64) -> (r: i64)
    requires
        lo <= hi,
    ensures
        lo <= r <= hi,
        r == uniform_pick(lo, hi, word),
{
    let mut rng = rand::rngs::StdRng::seed_from_u64(word);
    rand::distributions::Uniform::new_inclusive(lo, hi).sample(&mut rng)
}

/// `v` clamped into `lo..=hi`.
pub open spec fn spec_clamp_to(lo: i64, hi: i64, v: i64) -> i64 {
    if v < lo {
        lo
    } else if v > hi {
        hi
    } else {
        v
    }
}

/// The integer that `next_integer` draws between `lo` and `hi` (in either order).
pub open spec fn spec_next_integer(lo: i64, hi: i64, s0: Seed) -> i64 {
    let a = if lo <= hi { lo } else { hi };
    let b = if lo <= hi { hi } else { lo };
    spec_clamp_to(a, b, uniform_pick(a, b, spec_word64(s0)))
}

/// Draws an integer uniformly from the closed interval between `lo` and `hi`
/// (in either order), using the seed's next 64-bit word as the random source.
pub fn next_integer(lo: i64, hi: i64, s0: Seed) -> (r: (i64, Seed))
    ensures
        r.0 == spec_next_integer(lo, hi, s0),
        lo <= hi ==> lo <= r.0 <= hi,
        hi < lo ==> hi <= r.0 <= lo,
        r.1 == spec_next(s0),
{
    let (word, s1) = next_word64(s0);
    let (a, b) = if lo <= hi { (lo, hi) } else { (hi, lo) };
    let v = uniform_inclusive(a, b, word);
    // The draw already lies within the bounds. The clamp puts that fact into
    // `spec_next_integer`, where proofs about generators (which see only the
    // named draw) need it.
    let v = if v < a {
        a
    } else if v > b {
        b
    } else {
        v
    };
    (v, s1)
}

/// Relies on rand's `random::<u64>()`: a word from the thread-local generator,
/// which draws on the operating system's entropy. Nothing is known of it.
#[verifier::external_body]
fn entropy() -> (r: u64) {
    rand::random::<u64>()
}

/// A seed derived from fresh entropy.
pub fn global() -> (r: Seed)
    ensures
        r.wf(),
        exists|x: u64| r == spec_from(x),
{
    from(entropy())
}

/// A seed split off a seed derived from fresh entropy.
pub fn random() -> (r: Seed)
    ensures
        r.wf(),
        exists|x: u64| r == spec_split(spec_from(x)).1,
{
    let (_, s) = split(global());
    s
}

/// Splitting moves the first half away from the parent: its value advanced by
/// twice an odd step, which is never zero modulo 2^64.
pub proof fn lemma_split_moves(s: Seed)
    requires
        s.wf(),
    ensures
        spec_split(s).0 != s,
        spec_split(s).0.gamma == s.gamma,
{
    let g = s.gamma;
    let v = s.value;
    let v2 = v.wrapping_add(g).wrapping_add(g);
    assert(g % 2 == 1 ==> v.wrapping_add(g).wrapping_add(g) != v) by (bit_vector);
}

} // verus!
