//! The demo samples' random streams.
//!
//! `XorShift32` is the samples' `RandomInt` / `RandomIntRange` generator:
//! every sample that spawns a randomized pile must see the identical stream,
//! so the arithmetic lives here once. Callers that keep
//! the raw `u32` seed in a cell use [`random_int`] / [`random_int_range`],
//! which advance the seed in place exactly as the generator does.
//!
//! `DemoRng` is the small linear congruential generator used for prop
//! placement.
use vstd::prelude::*;

verus! {

/// Modulus mask of the 15-bit output: results lie in `[0, RAND_LIMIT]`.
pub const RAND_LIMIT: u32 = 32767;

/// One xorshift32 state transition (`x ^= x << 13; x ^= x >> 17; x ^= x << 5`).
pub open spec fn xorshift32_step(x: u32) -> u32 {
    let a = x ^ (x << 13u32);
    let b = a ^ (a >> 17u32);
    b ^ (b << 5u32)
}

/// The value drawn from a state that has just been advanced to `x`.
pub open spec fn fold_to_limit(x: u32) -> int {
    (x % 32768u32) as int
}

/// The value that one draw from seed `s` returns.
pub open spec fn draw_value(s: u32) -> int {
    fold_to_limit(xorshift32_step(s))
}

/// The value of `RandomIntRange(lo, hi)` drawn from seed `s`:
/// `lo + RandomInt() % (hi - lo + 1)`, with the remainder of a non-negative
/// dividend (which Rust's `%` and the Euclidean `%` agree on).
pub open spec fn range_value(s: u32, lo: int, hi: int) -> int {
    lo + draw_value(s) % (hi - lo + 1)
}

/// Whether `RandomIntRange(lo, hi)` from seed `s` is computed without
/// overflow or division by zero in `i32` arithmetic.
pub open spec fn range_defined(s: u32, lo: i32, hi: i32) -> bool {
    &&& i32::MIN <= hi - lo
    &&& hi - lo + 1 <= i32::MAX
    &&& hi - lo + 1 != 0
    &&& i32::MIN <= range_value(s, lo as int, hi as int) <= i32::MAX
}

/// Advance a seed by one xorshift32 step.
fn advance(x: u32) -> (r: u32)
    ensures
        r == xorshift32_step(x),
{
    let mut x = x;
    x ^= x << 13u32;
    x ^= x >> 17u32;
    x ^= x << 5u32;
    x
}

/// Fold an advanced state to the 15-bit output range.
fn fold(x: u32) -> (r: i32)
    ensures
        r as int == fold_to_limit(x),
        0 <= r <= RAND_LIMIT,
{
    (x % (RAND_LIMIT + 1)) as i32
}

/// Value-carrying xorshift32 generator (the shared random stream).
pub struct XorShift32(u32);

impl View for XorShift32 {
    type V = u32;

    /// The generator's state is its current seed.
    closed spec fn view(&self) -> u32 {
        self.0
    }
}

impl XorShift32 {
    /// Seed the generator (the samples seed with 12345).
    pub fn with_seed(seed: u32) -> (r: Self)
        ensures
            r@ == seed,
    {
        XorShift32(seed)
    }

    /// Current internal seed, for callers that persist the stream.
    pub fn seed(&self) -> (r: u32)
        ensures
            r == self@,
    {
        self.0
    }

    /// `RandomInt()`: advance the state and fold to `[0, RAND_LIMIT]`.
    pub fn next_int(&mut self) -> (r: i32)
        ensures
            final(self)@ == xorshift32_step(old(self)@),
            r as int == draw_value(old(self)@),
            0 <= r <= RAND_LIMIT,
    {
        let x = advance(self.0);
        self.0 = x;
        fold(x)
    }

    /// `RandomIntRange(lo, hi)`: `lo + RandomInt() % (hi - lo + 1)`.
    pub fn range_int(&mut self, lo: i32, hi: i32) -> (r: i32)
        requires
            range_defined(old(self)@, lo, hi),
        ensures
            final(self)@ == xorshift32_step(old(self)@),
            r as int == range_value(old(self)@, lo as int, hi as int),
    {
        let ghost s = self@;
        let v = self.next_int();
        let m = hi - lo + 1;
        proof {
            lemma_rem_of_nonneg(v as int, m as int);
        }
        lo + v % m
    }
}

/// `RandomInt()` over a raw seed kept in a cell: advances the seed in place.
pub fn random_int(seed: &mut u32) -> (r: i32)
    ensures
        *final(seed) == xorshift32_step(*old(seed)),
        r as int == draw_value(*old(seed)),
        0 <= r <= RAND_LIMIT,
{
    let x = advance(*seed);
    *seed = x;
    fold(x)
}

/// `RandomIntRange(lo, hi)` over a raw seed kept in a cell.
pub fn random_int_range(seed: &mut u32, lo: i32, hi: i32) -> (r: i32)
    requires
        range_defined(*old(seed), lo, hi),
    ensures
        *final(seed) == xorshift32_step(*old(seed)),
        r as int == range_value(*old(seed), lo as int, hi as int),
{
    let v = random_int(seed);
    let m = hi - lo + 1;
    proof {
        lemma_rem_of_nonneg(v as int, m as int);
    }
    lo + v % m
}

/// For a non-negative dividend the remainder lies in `[0, |m|)`.
proof fn lemma_rem_of_nonneg(v: int, m: int)
    requires
        0 <= v,
        m != 0,
    ensures
        0 <= v % m,
        m > 0 ==> v % m < m,
        m < 0 ==> v % m < -m,
{
}

/// Every draw lies in `[0, RAND_LIMIT]`.
pub proof fn lemma_draw_in_range(s: u32)
    ensures
        0 <= draw_value(s) <= RAND_LIMIT,
{
}

/// A ranged draw with `lo <= hi` lies in `[lo, hi]`.
pub proof fn lemma_range_value_bounds(s: u32, lo: int, hi: int)
    requires
        lo <= hi,
    ensures
        lo <= range_value(s, lo, hi) <= hi,
{
    lemma_rem_of_nonneg(draw_value(s), hi - lo + 1);
}

/// The zero state is the only fixed point to zero: a non-zero seed never
/// reaches zero, and a zero seed stays zero.
pub proof fn lemma_step_zero_iff(x: u32)
    ensures
        (xorshift32_step(x) == 0) <==> (x == 0),
{
    assert(((x ^ (x << 13u32)) ^ ((x ^ (x << 13u32)) >> 17u32)) ^ (((x ^ (x << 13u32)) ^ ((x
        ^ (x << 13u32)) >> 17u32)) << 5u32) == 0u32 <==> x == 0u32) by (bit_vector);
}

/// The seed after `n` draws from seed `s`.
pub open spec fn seed_after(s: u32, n: nat) -> u32
    decreases n,
{
    if n == 0 {
        s
    } else {
        xorshift32_step(seed_after(s, (n - 1) as nat))
    }
}

/// A stream seeded with a non-zero value never degenerates to the zero state.
pub proof fn lemma_nonzero_seed_stays_nonzero(s: u32, n: nat)
    requires
        s != 0,
    ensures
        seed_after(s, n) != 0,
    decreases n,
{
    if n > 0 {
        lemma_nonzero_seed_stays_nonzero(s, (n - 1) as nat);
        lemma_step_zero_iff(seed_after(s, (n - 1) as nat));
    }
}

/// One LCG transition: `x * 1664525 + 1013904223 (mod 2^32)`.
pub open spec fn lcg_step(x: u32) -> u32 {
    ((x as int * 1664525 + 1013904223) % 0x1_0000_0000) as u32
}

/// Tiny linear congruential generator for prop placement.
pub struct DemoRng(pub u32);

impl DemoRng {
    /// Advance the state and return it.
    pub fn next_u32(&mut self) -> (r: u32)
        ensures
            final(self).0 == lcg_step(old(self).0),
            r == final(self).0,
    {
        let x = self.0;
        let m = x.wrapping_mul(1664525);
        let r = m.wrapping_add(1013904223);
        proof {
            lemma_lcg_wrapping(x, m, r);
        }
        self.0 = r;
        r
    }
}

proof fn lemma_lcg_wrapping(x: u32, m: u32, r: u32)
    requires
        m == vstd::wrapping::u32_specs::wrapping_mul(x, 1664525u32),
        r == vstd::wrapping::u32_specs::wrapping_add(m, 1013904223u32),
    ensures
        r == lcg_step(x),
{
    let p = x as int * 1664525;
    assert(m as int == p % 0x1_0000_0000);
    vstd::arithmetic::div_mod::lemma_fundamental_div_mod(p, 0x1_0000_0000);
    let q = p / 0x1_0000_0000;
    assert(p == 0x1_0000_0000 * q + m);
    let t = p + 1013904223;
    if m as int + 1013904223 > u32::MAX {
        assert(r as int == m as int + 1013904223 - 0x1_0000_0000);
        vstd::arithmetic::div_mod::lemma_mod_multiples_vanish(q + 1, r as int, 0x1_0000_0000);
        assert(t == 0x1_0000_0000 * (q + 1) + r as int);
    } else {
        assert(r as int == m as int + 1013904223);
        vstd::arithmetic::div_mod::lemma_mod_multiples_vanish(q, r as int, 0x1_0000_0000);
    }
    assert(t % 0x1_0000_0000 == r as int % 0x1_0000_0000);
    vstd::arithmetic::div_mod::lemma_small_mod(r as nat, 0x1_0000_0000);
}

} // verus!
