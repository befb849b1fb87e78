use vstd::prelude::*;

verus! {

/// Multiplier of the linear congruential generator.
pub const LCG_MULTIPLIER: u64 = 6364136223846793005;

/// Increment of the linear congruential generator.
pub const LCG_INCREMENT: u64 = 1442695040888963407;

/// One step of the generator: `s * LCG_MULTIPLIER + LCG_INCREMENT` modulo 2^64.
pub open spec fn lcg_next(s: u64) -> u64 {
    ((s as nat * LCG_MULTIPLIER as nat + LCG_INCREMENT as nat) % 0x1_0000_0000_0000_0000nat) as u64
}

/// The state after `n` steps from `seed`.
pub open spec fn lcg_nth(seed: u64, n: nat) -> u64
    decreases n,
{
    if n == 0 {
        seed
    } else {
        lcg_next(lcg_nth(seed, (n - 1) as nat))
    }
}

/// The `n` outputs drawn first from a generator seeded with `seed`.
pub open spec fn lcg_outputs(seed: u64, n: nat) -> Seq<u64> {
    Seq::new(n, |i: int| lcg_nth(seed, (i + 1) as nat))
}

/// Deterministic LCG-based random number generator: the same seed gives the
/// same sequence on every platform, which keeps replays and lockstep play exact.
pub struct DeterministicRng {
    state: u64,
}

impl View for DeterministicRng {
    type V = u64;

    closed spec fn view(&self) -> u64 {
        self.state
    }
}

impl DeterministicRng {
    /// A generator whose state is `seed`.
    pub fn new(seed: u64) -> (r: Self)
        ensures
            r@ == seed,
    {
        DeterministicRng { state: seed }
    }

    /// Advances the state one step and returns the new state.
    pub fn next_u64(&mut self) -> (r: u64)
        ensures
            r == lcg_next(old(self)@),
            final(self)@ == r,
    {
        let s0 = self.state;
        let a: u64 = s0.wrapping_mul(LCG_MULTIPLIER);
        let r: u64 = a.wrapping_add(LCG_INCREMENT);
        proof {
            let p: int = s0 as int * LCG_MULTIPLIER as int;
            let m: int = 0x1_0000_0000_0000_0000int;
            let c: int = LCG_INCREMENT as int;
            assert(a as int == p % m);
            vstd::arithmetic::div_mod::lemma_add_mod_noop(p, c, m);
            vstd::arithmetic::div_mod::lemma_small_mod(c as nat, m as nat);
            // (p + c) % m == (a + c) % m
            if a as int + c >= m {
                vstd::arithmetic::div_mod::lemma_mod_sub_multiples_vanish(a as int + c, m);
                assert((-m + (a as int + c)) % m == (a as int + c) % m);
                vstd::arithmetic::div_mod::lemma_small_mod((a as int + c - m) as nat, m as nat);
            } else {
                vstd::arithmetic::div_mod::lemma_small_mod((a as int + c) as nat, m as nat);
            }
            vstd::arithmetic::div_mod::lemma_small_mod(a as nat, m as nat);
        }
        self.state = r;
        r
    }

    /// Advances the state and returns its top 24 bits, the mantissa from which
    /// a uniform value in `[0, 1)` is formed as `r / 2^24`.
    pub fn next_unit_bits(&mut self) -> (r: u32)
        ensures
            final(self)@ == lcg_next(old(self)@),
            r as nat == lcg_next(old(self)@) as nat / 0x100_0000_0000nat,
            r < 0x100_0000,
    {
        let s = self.next_u64();
        let top: u64 = s / 0x100_0000_0000;
        top as u32
    }
}

/// Two generators started from the same seed produce the same outputs and
/// reach the same state, however many values are drawn.
pub proof fn lemma_same_seed_same_sequence(seed_a: u64, seed_b: u64, n: nat)
    requires
        seed_a == seed_b,
    ensures
        lcg_outputs(seed_a, n) == lcg_outputs(seed_b, n),
        lcg_nth(seed_a, n) == lcg_nth(seed_b, n),
{
}

} // verus!
