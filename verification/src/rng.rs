//! Park-Miller linear congruential generator.
//!
//! Multiplier 48271, modulus 2^31 - 1.  A seed of 0 is replaced with 1 to
//! avoid the degenerate fixed point.  All derived draws use pure integer
//! arithmetic so that the stream is bit-identical on every platform.

use vstd::prelude::*;

verus! {

/// Park-Miller multiplier.
pub const LCG_MULTIPLIER: u64 = 48271;

/// Park-Miller modulus: 2^31 - 1.
pub const LCG_MODULUS: u64 = 2147483647;

/// The initial state derived from a seed: 0 is replaced with 1.
pub open spec fn lcg_init(seed: u32) -> u32 {
    if seed == 0 {
        1u32
    } else {
        seed
    }
}

/// One state advance: `state * 48271 mod (2^31 - 1)`.
pub open spec fn lcg_next(state: u32) -> u32 {
    ((state * 48271) % 2147483647) as u32
}

/// The state after `n` advances from the initial state for `seed`.
pub open spec fn lcg_state_at(seed: u32, n: nat) -> u32
    decreases n,
{
    if n == 0 {
        lcg_init(seed)
    } else {
        lcg_next(lcg_state_at(seed, (n - 1) as nat))
    }
}

/// The integer draw derived from a fresh state: `(state * n) / (2^31 - 1)`.
pub open spec fn lcg_scale(state: u32, n: int) -> int {
    (state * n) / 2147483647
}

/// `s` is a prefix of the advance-state stream for `seed`: its `i`-th entry
/// is the state after `i + 1` advances.
pub open spec fn is_lcg_stream(seed: u32, s: Seq<u32>) -> bool {
    forall|i: int| 0 <= i < s.len() ==> s[i] == lcg_state_at(seed, (i + 1) as nat)
}

/// An advanced state is always below the modulus.
pub proof fn lemma_lcg_next_bound(state: u32)
    ensures
        lcg_next(state) < 2147483647,
{
}

/// A draw scaled from a below-modulus state lands inside the range.
pub proof fn lemma_lcg_scale_bound(state: u32, len: int)
    requires
        state < 2147483647,
        len >= 1,
    ensures
        0 <= lcg_scale(state, len) < len,
{
    assert(0 <= (state * len) / 2147483647 < len) by (nonlinear_arith)
        requires
            state < 2147483647,
            len >= 1,
    ;
}

/// RNG determinism: the stream of states is a function of the seed alone, so
/// two generators constructed from the same seed yield pairwise-identical
/// draws, however many are taken.
pub proof fn lemma_rng_determinism(seed: u32, s1: Seq<u32>, s2: Seq<u32>)
    requires
        is_lcg_stream(seed, s1),
        is_lcg_stream(seed, s2),
        s1.len() == s2.len(),
    ensures
        s1 == s2,
{
    assert forall|i: int| 0 <= i < s1.len() implies s1[i] == s2[i] by {
        assert(s1[i] == lcg_state_at(seed, (i + 1) as nat));
        assert(s2[i] == lcg_state_at(seed, (i + 1) as nat));
    }
    assert(s1 =~= s2);
}

/// Park-Miller linear congruential generator.
///
/// The same seed always produces the same draw sequence.
pub struct SimpleLCG {
    state: u32,
}

impl View for SimpleLCG {
    type V = u32;

    closed spec fn view(&self) -> u32 {
        self.state
    }
}

impl SimpleLCG {
    /// Create a generator from a seed; a seed of 0 is replaced with 1.
    pub fn new(seed: u32) -> (r: Self)
        ensures
            r@ == lcg_init(seed),
    {
        Self { state: if seed == 0 { 1 } else { seed } }
    }

    /// The current internal state.
    pub fn state(&self) -> (r: u32)
        ensures
            r == self@,
    {
        self.state
    }

    /// Advance the state once by the Park-Miller recurrence.
    pub fn advance(&mut self)
        ensures
            final(self)@ == lcg_next(old(self)@),
    {
        self.state = ((self.state as u64 * LCG_MULTIPLIER) % LCG_MODULUS) as u32;
    }

    /// Random integer in `[a, b]`, both inclusive: advance once, then scale
    /// the fresh state into the range using integer arithmetic only.
    pub fn randint(&mut self, a: usize, b: usize) -> (r: usize)
        requires
            a <= b,
            b - a < 0xffff_ffff,
        ensures
            final(self)@ == lcg_next(old(self)@),
            r == a + lcg_scale(final(self)@, b - a + 1),
            a <= r <= b,
    {
        self.advance();
        let range = (b - a + 1) as u64;
        proof {
            lemma_lcg_next_bound(old(self)@);
            assert(self.state as u64 * range < 2147483647u64 * 0x1_0000_0000u64)
                by (nonlinear_arith)
                requires
                    self.state < 2147483647,
                    range < 0x1_0000_0000u64,
            ;
        }
        let scaled = (self.state as u64 * range) / LCG_MODULUS;
        proof {
            assert(scaled <= range - 1) by (nonlinear_arith)
                requires
                    scaled == (self.state * range) / 2147483647,
                    self.state < 2147483647,
                    range >= 1,
            ;
        }
        a + scaled as usize
    }

    /// Random index in `[0, len)`: advance once, then scale the fresh state
    /// by `len`.  For `len == 0` the result is 0.
    pub fn choice_index(&mut self, len: usize) -> (r: usize)
        requires
            len < 0x1_0000_0000,
        ensures
            final(self)@ == lcg_next(old(self)@),
            r == lcg_scale(final(self)@, len as int),
            len > 0 ==> r < len,
    {
        self.advance();
        proof {
            lemma_lcg_next_bound(old(self)@);
            assert(self.state as u64 * (len as u64) < 2147483647u64 * 0x1_0000_0000u64)
                by (nonlinear_arith)
                requires
                    self.state < 2147483647,
                    len < 0x1_0000_0000,
            ;
        }
        let scaled = (self.state as u64 * len as u64) / LCG_MODULUS;
        proof {
            if len > 0 {
                assert(scaled <= len - 1) by (nonlinear_arith)
                    requires
                        scaled == (self.state * len) / 2147483647,
                        self.state < 2147483647,
                        len >= 1,
                ;
            }
        }
        scaled as usize
    }
}

} // verus!
