use vstd::prelude::*;

verus! {

/// The state after mixing a seed through the avalanche function used by
/// `SimpleRng::new`: an xor-shift followed by two multiplications by fixed
/// odd constants, to remove correlation between small seeds.
pub open spec fn mix_seed(seed: u32) -> u64 {
    let s0 = (seed as u64 + 0x9E3779B97F4A7C15) as u64;
    let s1 = vstd::wrapping::u64_specs::wrapping_mul(s0 ^ (s0 >> 30), 0xBF58476D1CE4E5B9);
    let s2 = vstd::wrapping::u64_specs::wrapping_mul(s1 ^ (s1 >> 27), 0x94D049BB133111EB);
    s2 ^ (s2 >> 31)
}

/// One step of the linear-congruential advance used by `SimpleRng::next`.
pub open spec fn step_state(s: u64) -> u64 {
    vstd::wrapping::u64_specs::wrapping_add(
        vstd::wrapping::u64_specs::wrapping_mul(s, 6364136223846793005),
        1,
    )
}

/// The 32-bit output drawn from a generator state: its high 32 bits.
pub open spec fn out_bits(s: u64) -> u32 {
    (s >> 32) as u32
}

/// The value `SimpleRng::range(min, max)` returns when called on state `s`.
pub open spec fn range_result(s: u64, min: u32, max: u32) -> u32 {
    if min >= max {
        min
    } else {
        (min + (out_bits(step_state(s)) as int) % (max - min)) as u32
    }
}

/// The generator state after `SimpleRng::range(min, max)` runs on state `s`.
/// A degenerate range consumes nothing from the stream.
pub open spec fn range_state(s: u64, min: u32, max: u32) -> u64 {
    if min >= max {
        s
    } else {
        step_state(s)
    }
}

/// A simple, deterministic random number generator for level generation.
/// Its whole behaviour is a function of the seed and the call sequence.
pub struct SimpleRng {
    state: u64,
}

impl View for SimpleRng {
    type V = u64;

    closed spec fn view(&self) -> u64 {
        self.state
    }
}

impl SimpleRng {
    /// Creates a new `SimpleRng` with the given seed.
    pub fn new(seed: u32) -> (r: Self)
        ensures
            r@ == mix_seed(seed),
    {
        let mut state = seed as u64 + 0x9E3779B97F4A7C15;
        state = (state ^ (state >> 30)).wrapping_mul(0xBF58476D1CE4E5B9);
        state = (state ^ (state >> 27)).wrapping_mul(0x94D049BB133111EB);
        state = state ^ (state >> 31);
        SimpleRng { state }
    }

    /// Generates the next random 32-bit unsigned integer.
    pub fn next(&mut self) -> (r: u32)
        ensures
            final(self)@ == step_state(old(self)@),
            r == out_bits(final(self)@),
    {
        self.state = self.state.wrapping_mul(6364136223846793005).wrapping_add(1);
        proof {
            let s = self.state;
            assert(s >> 32 <= 0xFFFF_FFFFu64) by (bit_vector);
        }
        (self.state >> 32) as u32
    }

    /// Generates a random 32-bit unsigned integer in the range `[min, max)`.
    /// A degenerate range (`min >= max`) yields `min` and leaves the stream
    /// untouched.
    pub fn range(&mut self, min: u32, max: u32) -> (r: u32)
        ensures
            final(self)@ == range_state(old(self)@, min, max),
            r == range_result(old(self)@, min, max),
            min < max ==> min <= r < max,
            min >= max ==> r == min,
    {
        if min >= max {
            return min;
        }
        min + (self.next() % (max - min))
    }
}

} // verus!
