//! A linear congruential generator with explicit state.
use vstd::prelude::*;

verus! {

/// Multiplier of the generator (Numerical Recipes' constants).
pub const LCG_MULTIPLIER: u64 = 1664525;

/// Increment of the generator.
pub const LCG_INCREMENT: u64 = 1013904223;

/// Number of distinct states: the generator works modulo 2^32.
pub const LCG_MODULUS: u64 = 4294967296;

/// Odd multiplier that spreads pixel seeds: 2^32 divided by the golden ratio.
pub const SEED_SPREAD: u64 = 2654435769;

/// The seed of pixel `pixel` in sample pass `pass` of an image of `n_pixels`.
pub open spec fn pixel_seed(pass: u32, pixel: u32, n_pixels: u32) -> u32 {
    (((pass as int * n_pixels as int + pixel as int) % LCG_MODULUS as int) * SEED_SPREAD as int
        % LCG_MODULUS as int) as u32
}

/// One step of the generator.
pub open spec fn lcg_next(s: u32) -> u32 {
    ((s as int * LCG_MULTIPLIER as int + LCG_INCREMENT as int) % LCG_MODULUS as int) as u32
}

/// The state reached from `seed` after `n` steps.
pub open spec fn lcg_advance(seed: u32, n: nat) -> u32
    decreases n,
{
    if n == 0 {
        seed
    } else {
        lcg_next(lcg_advance(seed, (n - 1) as nat))
    }
}

/// The first `n` values drawn from a generator in state `seed`.
pub open spec fn lcg_stream(seed: u32, n: nat) -> Seq<u32>
    decreases n,
{
    if n == 0 {
        Seq::empty()
    } else {
        lcg_stream(seed, (n - 1) as nat).push(lcg_advance(seed, n))
    }
}

/// Random sequence generator. Each worker owns one; nothing is shared.
#[derive(Clone, Copy, Debug, PartialEq, Eq)]
pub struct Rng {
    pub state: u32,
}

impl Rng {
    /// A generator whose first draw is `lcg_next(seed)`.
    pub fn new(seed: u32) -> (r: Rng)
        ensures
            r.state == seed,
    {
        Rng { state: seed }
    }

    /// A generator for one pixel of one sample pass, so that a render is
    /// reproducible whatever order the pixels are computed in. The pixel's
    /// number over all passes is spread over the state space by the golden
    /// ratio, so that neighbouring pixels do not draw nearly equal values.
    pub fn for_pixel(pass: u32, pixel: u32, n_pixels: u32) -> (r: Rng)
        ensures
            r.state == pixel_seed(pass, pixel, n_pixels),
    {
        assert((pass as int) * (n_pixels as int) <= 0xffff_ffff * 0xffff_ffff) by (nonlinear_arith)
            requires
                pass <= 0xffff_ffff,
                n_pixels <= 0xffff_ffff,
        ;
        let index = ((pass as u64) * (n_pixels as u64) + pixel as u64) % LCG_MODULUS;
        assert(index * SEED_SPREAD <= 0xffff_ffff * 0xffff_ffff) by (nonlinear_arith)
            requires
                index <= 0xffff_ffff,
                SEED_SPREAD <= 0xffff_ffff,
        ;
        let s = (index * SEED_SPREAD) % LCG_MODULUS;
        Rng { state: s as u32 }
    }

    /// Advances the generator one step and returns the new state.
    pub fn rand(&mut self) -> (r: u32)
        ensures
            r == lcg_next(old(self).state),
            final(self).state == r,
    {
        let s = ((self.state as u64) * LCG_MULTIPLIER + LCG_INCREMENT) % LCG_MODULUS;
        self.state = s as u32;
        self.state
    }

    /// Draws `n` values in order.
    pub fn draw(&mut self, n: usize) -> (r: Vec<u32>)
        ensures
            r@ == lcg_stream(old(self).state, n as nat),
            final(self).state == lcg_advance(old(self).state, n as nat),
    {
        let ghost seed = self.state;
        let mut out: Vec<u32> = Vec::new();
        let mut i: usize = 0;
        while i < n
            invariant
                i <= n,
                out@ == lcg_stream(seed, i as nat),
                self.state == lcg_advance(seed, i as nat),
            decreases n - i,
        {
            let x = self.rand();
            out.push(x);
            i = i + 1;
        }
        out
    }
}

/// Drawing `n + m` values is drawing `n`, then `m` more from where the first
/// draws left the generator: a render split into passes sees the same numbers
/// as one made in a single run.
pub proof fn lemma_stream_split(seed: u32, n: nat, m: nat)
    ensures
        lcg_stream(seed, n + m) == lcg_stream(seed, n) + lcg_stream(lcg_advance(seed, n), m),
        lcg_advance(seed, n + m) == lcg_advance(lcg_advance(seed, n), m),
    decreases m,
{
    if m == 0 {
        assert(lcg_stream(seed, n) + lcg_stream(lcg_advance(seed, n), 0) =~= lcg_stream(seed, n));
    } else {
        lemma_stream_split(seed, n, (m - 1) as nat);
        assert(lcg_stream(seed, n + m) =~= lcg_stream(seed, n) + lcg_stream(
            lcg_advance(seed, n),
            m,
        ));
    }
}

/// Two generators in the same state draw the same values and end in the same
/// state: a render repeated from the same seeds is repeated exactly.
pub proof fn lemma_same_seed_same_draws(a: Rng, b: Rng, n: nat)
    requires
        a.state == b.state,
    ensures
        lcg_stream(a.state, n) == lcg_stream(b.state, n),
        lcg_advance(a.state, n) == lcg_advance(b.state, n),
{
}

/// Each stream is its own prefix: the first `k` of `n` draws are the `k`
/// draws that a shorter run would have made.
pub proof fn lemma_stream_prefix(seed: u32, k: nat, n: nat)
    requires
        k <= n,
    ensures
        lcg_stream(seed, n).len() == n,
        lcg_stream(seed, n).subrange(0, k as int) == lcg_stream(seed, k),
    decreases n,
{
    lemma_stream_len(seed, n);
    if k < n {
        lemma_stream_prefix(seed, k, (n - 1) as nat);
        lemma_stream_len(seed, (n - 1) as nat);
        assert(lcg_stream(seed, n).subrange(0, k as int) =~= lcg_stream(
            seed,
            (n - 1) as nat,
        ).subrange(0, k as int));
    } else {
        assert(lcg_stream(seed, n).subrange(0, k as int) =~= lcg_stream(seed, n));
    }
}

proof fn lemma_stream_len(seed: u32, n: nat)
    ensures
        lcg_stream(seed, n).len() == n,
    decreases n,
{
    if n > 0 {
        lemma_stream_len(seed, (n - 1) as nat);
    }
}

/// Inverse of `SEED_SPREAD` modulo 2^32.
const SEED_SPREAD_INVERSE: u64 = 340573321;

/// Multiplying by `SEED_SPREAD` modulo 2^32 loses nothing.
proof fn lemma_spread_injective(a: int, b: int)
    requires
        0 <= a < LCG_MODULUS,
        0 <= b < LCG_MODULUS,
        (a * SEED_SPREAD) % (LCG_MODULUS as int) == (b * SEED_SPREAD) % (LCG_MODULUS as int),
    ensures
        a == b,
{
    let m = LCG_MODULUS as int;
    let k = SEED_SPREAD as int;
    let ki = SEED_SPREAD_INVERSE as int;
    assert(k * ki == 210485888 * m + 1);
    lemma_undo_spread(a);
    lemma_undo_spread(b);
    vstd::arithmetic::div_mod::lemma_mul_mod_noop_left(a * k, ki, m);
    vstd::arithmetic::div_mod::lemma_mul_mod_noop_left(b * k, ki, m);
}

proof fn lemma_undo_spread(a: int)
    requires
        0 <= a < LCG_MODULUS,
    ensures
        (a * SEED_SPREAD) * SEED_SPREAD_INVERSE % (LCG_MODULUS as int) == a,
{
    let m = LCG_MODULUS as int;
    assert(SEED_SPREAD * SEED_SPREAD_INVERSE == 210485888 * m + 1);
    assert((a * SEED_SPREAD) * SEED_SPREAD_INVERSE == (a * 210485888) * m + a) by (nonlinear_arith)
        requires
            SEED_SPREAD * SEED_SPREAD_INVERSE == 210485888 * m + 1,
    ;
    vstd::arithmetic::div_mod::lemma_mod_multiples_vanish(a * 210485888, a, m);
    vstd::arithmetic::div_mod::lemma_small_mod(a as nat, m as nat);
}

/// Within one sample pass no two pixels of an image start from the same
/// state, so no two pixels draw the same sequence.
pub proof fn lemma_pixel_seeds_distinct(pass: u32, p1: u32, p2: u32, n_pixels: u32)
    requires
        p1 < n_pixels,
        p2 < n_pixels,
        p1 != p2,
    ensures
        pixel_seed(pass, p1, n_pixels) != pixel_seed(pass, p2, n_pixels),
{
    let m = LCG_MODULUS as int;
    let base = pass as int * n_pixels as int;
    let i1 = (base + p1) % m;
    let i2 = (base + p2) % m;
    vstd::arithmetic::div_mod::lemma_fundamental_div_mod(base + p1, m);
    vstd::arithmetic::div_mod::lemma_fundamental_div_mod(base + p2, m);
    vstd::arithmetic::div_mod::lemma_mod_bound(base + p1, m);
    vstd::arithmetic::div_mod::lemma_mod_bound(base + p2, m);
    if i1 == i2 {
        let q1 = (base + p1) / m;
        let q2 = (base + p2) / m;
        assert(p1 - p2 == (q1 - q2) * m) by (nonlinear_arith)
            requires
                base + p1 == m * q1 + i1,
                base + p2 == m * q2 + i2,
                i1 == i2,
        ;
        assert(false) by (nonlinear_arith)
            requires
                p1 - p2 == (q1 - q2) * m,
                p1 != p2,
                -m < p1 - p2 < m,
        ;
    }
    vstd::arithmetic::div_mod::lemma_mod_bound(i1 * SEED_SPREAD, m);
    vstd::arithmetic::div_mod::lemma_mod_bound(i2 * SEED_SPREAD, m);
    if pixel_seed(pass, p1, n_pixels) == pixel_seed(pass, p2, n_pixels) {
        lemma_spread_injective(i1, i2);
    }
}

} // verus!
