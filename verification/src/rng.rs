//! A small, deterministic SplitMix64 pseudo-random generator.

use vstd::prelude::*;

verus! {

/// Seed used in place of zero, which would otherwise start the stream at a fixed point.
pub const ZERO_SEED_FALLBACK: u64 = 0xA2F1_9C37_5D4B_E821;

/// The increment added to the state on every draw.
pub const GOLDEN_GAMMA: u64 = 0x9E37_79B9_7F4A_7C15;

pub const MIX_MUL_1: u64 = 0xBF58_476D_1CE4_E5B9;

pub const MIX_MUL_2: u64 = 0x94D0_49BB_1331_11EB;

/// The state a generator built from `seed` starts in.
pub open spec fn seeded_state(seed: u64) -> u64 {
    if seed == 0 { ZERO_SEED_FALLBACK } else { seed }
}

/// The state after one draw from `state`.
pub open spec fn advanced_state(state: u64) -> u64 {
    vstd::wrapping::u64_specs::wrapping_add(state, GOLDEN_GAMMA)
}

/// The SplitMix64 output function applied to an already advanced state.
pub open spec fn mix(z0: u64) -> u64 {
    let z1 = vstd::wrapping::u64_specs::wrapping_mul(z0 ^ (z0 >> 30u64), MIX_MUL_1);
    let z2 = vstd::wrapping::u64_specs::wrapping_mul(z1 ^ (z1 >> 27u64), MIX_MUL_2);
    z2 ^ (z2 >> 31u64)
}

/// The value drawn by `next_u64` from a generator in `state`.
pub open spec fn draw(state: u64) -> u64 {
    mix(advanced_state(state))
}

/// The state after `n` draws starting from `state`.
pub open spec fn state_after(state: u64, n: nat) -> u64
    decreases n,
{
    if n == 0 { state } else { advanced_state(state_after(state, (n - 1) as nat)) }
}

/// The first `n` values drawn from a generator that starts in `state`.
pub open spec fn stream(state: u64, n: nat) -> Seq<u64>
    decreases n,
{
    if n == 0 {
        Seq::empty()
    } else {
        stream(state, (n - 1) as nat).push(draw(state_after(state, (n - 1) as nat)))
    }
}

/// The value `next_usize(max)` returns from a generator in `state`.
pub open spec fn draw_below(state: u64, max: usize) -> usize {
    if max == 0 { 0 } else { (draw(state) % (max as u64)) as usize }
}

/// The state `next_usize(max)` leaves behind.
pub open spec fn state_after_draw_below(state: u64, max: usize) -> u64 {
    if max == 0 { state } else { advanced_state(state) }
}

/// Small, deterministic SplitMix64 RNG used for procedural content and damage rolls.
#[derive(Clone, Copy, Debug)]
pub struct SplitMix64 {
    state: u64,
}

impl View for SplitMix64 {
    type V = u64;

    closed spec fn view(&self) -> u64 {
        self.state
    }
}

#[verifier::external_type_specification]
#[verifier::external_body]
pub struct ExSystemTime(std::time::SystemTime);

/// Wraps `std::time::SystemTime::now`: the current reading of the system clock. Nothing is
/// promised of it; two calls may differ.
#[verifier::external_body]
fn system_time_now() -> std::time::SystemTime {
    std::time::SystemTime::now()
}

/// Wraps `SystemTime::duration_since` with `std::time::UNIX_EPOCH` as the earlier time: the
/// time elapsed from the epoch to `time`, or `None` where `time` lies before the epoch (the
/// error that the call returns then). Which of the two comes back, and the duration, are
/// not stated: they depend on the clock reading handed in, an opaque value here.
#[verifier::external_body]
fn elapsed_since_epoch(time: &std::time::SystemTime) -> Option<std::time::Duration> {
    match time.duration_since(std::time::UNIX_EPOCH) {
        Ok(duration) => Some(duration),
        Err(_) => None,
    }
}

/// Wraps `Duration::as_nanos`: the whole duration in nanoseconds. The value is not stated:
/// a `Duration` is an opaque value here.
#[verifier::external_body]
fn duration_nanos(duration: &std::time::Duration) -> u128 {
    duration.as_nanos()
}

/// The seed taken from a clock reading: the nanoseconds since the Unix epoch truncated to
/// their low 64 bits, or the fallback seed when the clock stood before the epoch.
pub open spec fn elapsed_seed(elapsed_nanos: Option<u128>) -> u64 {
    match elapsed_nanos {
        Some(nanos) => nanos as u64,
        None => ZERO_SEED_FALLBACK,
    }
}

/// The seed `from_entropy` derives from a clock reading: the low 64 bits of the nanoseconds
/// elapsed since the Unix epoch, or `ZERO_SEED_FALLBACK` when the clock stood before it.
pub fn seed_from_elapsed(elapsed_nanos: Option<u128>) -> (seed: u64)
    ensures
        seed == elapsed_seed(elapsed_nanos),
{
    match elapsed_nanos {
        Some(nanos) => nanos as u64,
        None => ZERO_SEED_FALLBACK,
    }
}

/// The nanoseconds of a time elapsed since the Unix epoch, where the clock stood past it:
/// a reading exactly when there is an elapsed time.
fn elapsed_nanos(elapsed: Option<std::time::Duration>) -> (reading: Option<u128>)
    ensures
        reading is Some <==> elapsed is Some,
{
    match elapsed {
        Some(elapsed) => Some(duration_nanos(&elapsed)),
        None => None,
    }
}

/// A clock reading past the epoch seeds the generator with the low 64 bits of its
/// nanoseconds (where they are not all zero), and one before the epoch with the fallback
/// seed: two readings that differ in those bits give generators in different states.
pub proof fn clock_reading_seeds_its_low_bits(nanos: u128, other: u128)
    ensures
        (nanos as u64) != 0 ==> seeded_state(elapsed_seed(Some(nanos))) == nanos as u64,
        seeded_state(elapsed_seed(None)) == ZERO_SEED_FALLBACK,
        (nanos as u64) != 0 && (other as u64) != 0 && (nanos as u64) != (other as u64)
            ==> seeded_state(elapsed_seed(Some(nanos))) != seeded_state(elapsed_seed(Some(other))),
{
}

impl SplitMix64 {
    /// A generator seeded with `seed`; a zero seed is replaced by a fixed non-zero one.
    pub fn new(seed: u64) -> (rng: Self)
        ensures
            rng@ == seeded_state(seed),
            rng@ != 0,
    {
        Self { state: if seed == 0 { ZERO_SEED_FALLBACK } else { seed } }
    }

    /// A generator seeded from the system clock: the nanoseconds elapsed since the Unix
    /// epoch, truncated to 64 bits, or the fixed fallback seed when the clock stands before
    /// the epoch. Which reading the clock gives is not known here; the state is the seeded
    /// state of `elapsed_seed` applied to some reading.
    pub fn from_entropy() -> (rng: Self)
        ensures
            exists|reading: Option<u128>| rng@ == seeded_state(#[trigger] elapsed_seed(reading)),
            rng@ != 0,
    {
        let now = system_time_now();
        let reading = elapsed_nanos(elapsed_since_epoch(&now));
        let seed = seed_from_elapsed(reading);
        let rng = Self::new(seed);
        assert(rng@ == seeded_state(elapsed_seed(reading)));
        rng
    }

    /// The next 64 pseudo-random bits.
    pub fn next_u64(&mut self) -> (value: u64)
        ensures
            final(self)@ == advanced_state(old(self)@),
            value == draw(old(self)@),
    {
        self.state = self.state.wrapping_add(GOLDEN_GAMMA);
        let mut z = self.state;
        z = (z ^ (z >> 30u64)).wrapping_mul(MIX_MUL_1);
        z = (z ^ (z >> 27u64)).wrapping_mul(MIX_MUL_2);
        z ^ (z >> 31u64)
    }

    /// A pseudo-random value in `0..max`, or 0 without drawing when `max` is 0.
    pub fn next_usize(&mut self, max: usize) -> (value: usize)
        ensures
            value == draw_below(old(self)@, max),
            final(self)@ == state_after_draw_below(old(self)@, max),
            max == 0 ==> value == 0,
            max > 0 ==> value < max,
    {
        if max == 0 {
            return 0;
        }
        let drawn = self.next_u64();
        (drawn % max as u64) as usize
    }
}

impl Default for SplitMix64 {
    /// A generator seeded from the system clock, as `from_entropy`.
    fn default() -> (rng: Self)
        ensures
            exists|reading: Option<u128>| rng@ == seeded_state(#[trigger] elapsed_seed(reading)),
            rng@ != 0,
    {
        Self::from_entropy()
    }
}

/// The first `n` values drawn from `state`, one by one: the `k`-th is the value drawn from
/// the state `k` draws on.
pub proof fn lemma_stream_index(state: u64, n: nat)
    ensures
        stream(state, n).len() == n,
        forall|k: int| 0 <= k < n ==> #[trigger] stream(state, n)[k] == draw(state_after(state, k as nat)),
    decreases n,
{
    if n > 0 {
        lemma_stream_index(state, (n - 1) as nat);
    }
}

/// The states a run of draws passes through, from its first, are the states `k` draws on.
proof fn lemma_trace_states(states: Seq<u64>, k: nat)
    requires
        k < states.len(),
        forall|i: int| 0 <= i < states.len() - 1 ==> #[trigger] states[i + 1] == advanced_state(states[i]),
    ensures
        states[k as int] == state_after(states[0], k),
    decreases k,
{
    if k > 0 {
        let j: int = k - 1;
        lemma_trace_states(states, j as nat);
        assert(states[j + 1] == advanced_state(states[j]));
    }
}

/// The values a generator seeded with `seed` returns from successive calls of `next_u64`
/// depend on the seed alone: where `states` are the generator's states before each call and
/// after the last (as the contracts of `new` and `next_u64` give them) and `values` the
/// values returned, `values` is `stream(seeded_state(seed), n)`. So two generators made from
/// one seed return the same values in the same order.
pub proof fn same_seed_same_sequence(seed: u64, states: Seq<u64>, values: Seq<u64>)
    requires
        states.len() == values.len() + 1,
        states[0] == seeded_state(seed),
        forall|i: int| 0 <= i < values.len() ==> #[trigger] states[i + 1] == advanced_state(states[i]),
        forall|i: int| 0 <= i < values.len() ==> #[trigger] values[i] == draw(states[i]),
    ensures
        values == stream(seeded_state(seed), values.len()),
{
    let n = values.len();
    lemma_stream_index(seeded_state(seed), n);
    assert forall|k: int| 0 <= k < n implies values[k] == stream(seeded_state(seed), n)[k] by {
        lemma_trace_states(states, k as nat);
    }
    assert(values =~= stream(seeded_state(seed), n));
}

} // verus!
