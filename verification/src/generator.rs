use vstd::prelude::*;

verus! {

/// The multiplier of the linear congruential step.
pub const LCG_MULTIPLIER: u64 = 6_364_136_223_846_793_005;

/// The increment of the linear congruential step.
pub const LCG_INCREMENT: u64 = 1_442_695_040_888_963_407;

/// One step of the generator, modulo 2^64: `state * multiplier + increment`.
pub open spec fn spec_next_word(state: u64) -> u64 {
    let product = ((state as nat * LCG_MULTIPLIER as nat) % 0x1_0000_0000_0000_0000) as u64;
    if product + LCG_INCREMENT > u64::MAX {
        (product + LCG_INCREMENT - 0x1_0000_0000_0000_0000) as u64
    } else {
        (product + LCG_INCREMENT) as u64
    }
}

/// Advances the generator; the new state is also the generated word.
pub fn next_word(state: u64) -> (step: (u64, u64))
    ensures
        step == (spec_next_word(state), spec_next_word(state)),
{
    let next = state.wrapping_mul(LCG_MULTIPLIER).wrapping_add(LCG_INCREMENT);
    (next, next)
}

/// The sample drawn from a word: its bytes 4 and 5 in little-endian order,
/// read as an `i16`.
pub open spec fn sample_of(word: u64) -> i16 {
    (((word / 0x1_0000_0000) % 0x1_0000) as u16) as i16
}

/// The state after `count` steps from `state`.
pub open spec fn state_after(state: u64, count: nat) -> u64
    decreases count,
{
    if count == 0 {
        state
    } else {
        spec_next_word(state_after(state, (count - 1) as nat))
    }
}

/// Generates `size` samples from `state`, one generator step per sample,
/// and returns them with the state that follows.
pub fn generate_vec(state: u64, size: usize) -> (generated: (Vec<i16>, u64))
    ensures
        generated.0@.len() == size,
        generated.1 == state_after(state, size as nat),
        forall|i: int| 0 <= i < size ==> #[trigger] generated.0@[i] == sample_of(state_after(state, (i + 1) as nat)),
{
    let mut current = state;
    let mut values: Vec<i16> = Vec::new();
    let mut i: usize = 0;
    while i < size
        invariant
            i <= size,
            values@.len() == i,
            current == state_after(state, i as nat),
            forall|k: int| 0 <= k < i ==> #[trigger] values@[k] == sample_of(state_after(state, (k + 1) as nat)),
        decreases size - i,
    {
        let (word, next) = next_word(current);
        let sample = ((word >> 32) & 0xffff) as u16 as i16;
        assert(((word >> 32) & 0xffff) == (word / 0x1_0000_0000) % 0x1_0000) by (bit_vector);
        values.push(sample);
        current = next;
        i = i + 1;
    }
    (values, current)
}

} // verus!
