//! Deterministic seeds and a SplitMix64 random stream for procedural content.
use vstd::prelude::*;
use vstd::string::StringSliceAdditionalSpecFns;

verus! {

pub const SPLITMIX_INCREMENT: u64 = 0x9E37_79B9_7F4A_7C15;

pub const FNV_OFFSET: u64 = 0xcbf2_9ce4_8422_2325;

pub const FNV_PRIME: u64 = 0x0000_0100_0000_01b3;

/// Keeps synthetic ids below `i64::MAX` with room for a million allocations.
pub const MAX_SYNTHETIC_ID_BASE: u64 = 9_223_372_036_853_775_807;

/// The SplitMix64 output function.
pub open spec fn spec_mix_u64(value: u64) -> u64 {
    let first = (value ^ (value >> 30u64)).wrapping_mul(0xbf58_476d_1ce4_e5b9u64);
    let second = (first ^ (first >> 27u64)).wrapping_mul(0x94d0_49bb_1331_11ebu64);
    second ^ (second >> 31u64)
}

/// The 64-bit FNV-1a hash of a byte sequence.
pub open spec fn spec_fnv1a(bytes: Seq<u8>) -> u64
    decreases bytes.len(),
{
    if bytes.len() == 0 {
        FNV_OFFSET
    } else {
        (spec_fnv1a(bytes.drop_last()) ^ (bytes.last() as u64)).wrapping_mul(FNV_PRIME)
    }
}

/// The first synthetic entity id that a seed hands out: in `1..=MAX_SYNTHETIC_ID_BASE`.
pub open spec fn spec_synthetic_id_base(seed: u64) -> u64 {
    (1 + spec_mix_u64(seed ^ 0x53e1_5e1d_0000_0001u64) % MAX_SYNTHETIC_ID_BASE) as u64
}

/// The SplitMix64 output function.
pub fn mix_u64(value: u64) -> (mixed: u64)
    ensures
        mixed == spec_mix_u64(value),
{
    let mut value = value;
    value = (value ^ (value >> 30u64)).wrapping_mul(0xbf58_476d_1ce4_e5b9u64);
    value = (value ^ (value >> 27u64)).wrapping_mul(0x94d0_49bb_1331_11ebu64);
    value ^ (value >> 31u64)
}

/// A seed for procedural generation.
#[derive(Debug, Clone, Copy, PartialEq, Eq, Hash)]
pub struct ProceduralSeed(u64);

impl View for ProceduralSeed {
    type V = u64;

    closed spec fn view(&self) -> u64 {
        self.0
    }
}

impl ProceduralSeed {
    pub fn from_u64(value: u64) -> (seed: Self)
        ensures
            seed@ == value,
    {
        ProceduralSeed(value)
    }

    /// A seed derived from text by the FNV-1a hash of its UTF-8 bytes.
    pub fn from_text(value: &str) -> (seed: Self)
        ensures
            seed@ == spec_fnv1a(value.spec_bytes()),
    {
        let bytes = value.as_bytes();
        let mut hash: u64 = FNV_OFFSET;
        let mut i: usize = 0;
        while i < bytes.len()
            invariant
                0 <= i <= bytes@.len(),
                hash == spec_fnv1a(bytes@.take(i as int)),
            decreases bytes@.len() - i,
        {
            proof {
                assert(bytes@.take(i + 1).drop_last() =~= bytes@.take(i as int));
            }
            hash = hash ^ (bytes[i] as u64);
            hash = hash.wrapping_mul(FNV_PRIME);
            i = i + 1;
        }
        assert(bytes@.take(bytes@.len() as int) =~= bytes@);
        ProceduralSeed(hash)
    }

    pub fn raw(self) -> (value: u64)
        ensures
            value == self@,
    {
        self.0
    }
}

/// A SplitMix64 random stream; each draw advances the state by a fixed increment.
#[derive(Debug, Clone, PartialEq, Eq)]
pub struct ProceduralRng {
    state: u64,
}

impl View for ProceduralRng {
    type V = u64;

    closed spec fn view(&self) -> u64 {
        self.state
    }
}

/// The state of the stream after one more draw.
pub open spec fn spec_advance(state: u64) -> u64 {
    state.wrapping_add(SPLITMIX_INCREMENT)
}

impl ProceduralRng {
    pub fn new(seed: ProceduralSeed) -> (rng: Self)
        ensures
            rng@ == seed@,
    {
        ProceduralRng { state: seed.raw() }
    }

    pub fn next_u64(&mut self) -> (value: u64)
        ensures
            final(self)@ == spec_advance(old(self)@),
            value == spec_mix_u64(final(self)@),
    {
        self.state = self.state.wrapping_add(SPLITMIX_INCREMENT);
        mix_u64(self.state)
    }

    /// A value in `start..end`; `start`, without a draw, when the range is empty.
    pub fn range_u32(&mut self, start: u32, end: u32) -> (value: u32)
        ensures
            end <= start ==> value == start && final(self)@ == old(self)@,
            start < end ==> {
                &&& final(self)@ == spec_advance(old(self)@)
                &&& value == start + spec_mix_u64(final(self)@) % ((end - start) as u64)
                &&& start <= value < end
            },
    {
        if end <= start {
            return start;
        }
        let width: u64 = (end - start) as u64;
        let offset = self.next_u64() % width;
        start + offset as u32
    }

    /// An index below `len`; `None`, without a draw, when `len` is zero.
    pub fn choose_index(&mut self, len: usize) -> (index: Option<usize>)
        ensures
            len == 0 ==> index is None && final(self)@ == old(self)@,
            len > 0 ==> {
                &&& final(self)@ == spec_advance(old(self)@)
                &&& index == Some((spec_mix_u64(final(self)@) % (len as u64)) as usize)
                &&& index.unwrap() < len
            },
    {
        if len == 0 {
            return None;
        }
        Some((self.next_u64() % len as u64) as usize)
    }
}

/// The first synthetic entity id of a procedural scene built from `seed`.
pub fn synthetic_id_base(seed: ProceduralSeed) -> (base: u64)
    ensures
        base == spec_synthetic_id_base(seed@),
        1 <= base <= MAX_SYNTHETIC_ID_BASE,
{
    let mixed = mix_u64(seed.raw() ^ 0x53e1_5e1d_0000_0001u64);
    1 + mixed % MAX_SYNTHETIC_ID_BASE
}

/// The state of a stream after `draws` draws from `state`.
pub open spec fn spec_stream_state(state: u64, draws: nat) -> u64
    decreases draws,
{
    if draws == 0 {
        state
    } else {
        spec_advance(spec_stream_state(state, (draws - 1) as nat))
    }
}

/// What the `draw`-th call of `next_u64` (counting from 1) returns on a
/// stream made from a seed with this number.
pub open spec fn spec_draw(seed: u64, draw: nat) -> u64 {
    spec_mix_u64(spec_stream_state(seed, draw))
}

/// A run of `next_u64` calls on a stream made from `seed`: `states` holds
/// the state before the first call and after each call, `values` what each
/// call returned; each call moves the state on by one step and returns the
/// mix of the new state.
pub open spec fn is_draw_run(seed: u64, states: Seq<u64>, values: Seq<u64>) -> bool {
    &&& states.len() == values.len() + 1
    &&& states[0] == seed
    &&& forall|k: int|
        0 <= k < values.len() ==> states[k + 1] == spec_advance(states[k]) && #[trigger] values[k] == spec_mix_u64(
            states[k + 1],
        )
}

/// The state of a run of `next_u64` calls follows the seed: before call
/// `i + 1` it is the seed after `i` draws.
proof fn lemma_run_states(seed: u64, states: Seq<u64>, values: Seq<u64>, i: int)
    requires
        is_draw_run(seed, states, values),
        0 <= i < states.len(),
    ensures
        states[i] == spec_stream_state(seed, i as nat),
    decreases i,
{
    if i > 0 {
        lemma_run_states(seed, states, values, i - 1);
        assert(values[i - 1] == spec_mix_u64(states[i]));
    }
}

/// What a stream draws depends only on its seed and on how many draws came
/// before: in any run of `next_u64` calls on a stream made from `seed`, each
/// moving the state on by one step and returning the mix of the new state,
/// call `k` (counting from 1) returns SplitMix64's mix of the seed plus `k`
/// increments, modulo 2^64, so two streams from one seed draw the same
/// values.
pub proof fn lemma_draws_follow_seed(seed: u64, states: Seq<u64>, values: Seq<u64>)
    requires
        is_draw_run(seed, states, values),
    ensures
        forall|k: int| 0 <= k < values.len() ==> #[trigger] values[k] == spec_draw(seed, (k + 1) as nat)
            && values[k] == spec_mix_u64(((seed + (k + 1) * SPLITMIX_INCREMENT) % 0x1_0000_0000_0000_0000) as u64),
{
    assert forall|k: int| 0 <= k < values.len() implies #[trigger] values[k] == spec_draw(seed, (k + 1) as nat)
        && values[k] == spec_mix_u64(((seed + (k + 1) * SPLITMIX_INCREMENT) % 0x1_0000_0000_0000_0000) as u64) by {
        lemma_run_states(seed, states, values, k + 1);
        lemma_stream_closed_form(seed, (k + 1) as nat);
    }
}

/// A stream is SplitMix64: after `draws` draws its state is the seed plus
/// `draws` increments, modulo 2^64, so the values drawn depend only on the
/// seed and on how many came before, and two streams from one seed draw
/// the same values.
pub proof fn lemma_stream_closed_form(seed: u64, draws: nat)
    ensures
        spec_stream_state(seed, draws) == (seed + draws * SPLITMIX_INCREMENT) % 0x1_0000_0000_0000_0000,
    decreases draws,
{
    let m: int = 0x1_0000_0000_0000_0000;
    if draws > 0 {
        lemma_stream_closed_form(seed, (draws - 1) as nat);
        let previous = spec_stream_state(seed, (draws - 1) as nat);
        let x: int = seed + (draws - 1) * SPLITMIX_INCREMENT;
        assert(previous == x % m);
        vstd::arithmetic::div_mod::lemma_add_mod_noop(x, SPLITMIX_INCREMENT as int, m);
        vstd::arithmetic::div_mod::lemma_small_mod(SPLITMIX_INCREMENT as nat, m as nat);
        vstd::arithmetic::div_mod::lemma_mod_pos_bound(x, m);
        assert(x + SPLITMIX_INCREMENT == seed + draws * SPLITMIX_INCREMENT) by (nonlinear_arith)
            requires
                x == seed + (draws - 1) * SPLITMIX_INCREMENT,
                draws > 0,
        ;
        let sum: int = previous + SPLITMIX_INCREMENT;
        if sum < m {
            vstd::arithmetic::div_mod::lemma_small_mod(sum as nat, m as nat);
        } else {
            vstd::arithmetic::div_mod::lemma_small_mod((sum - m) as nat, m as nat);
            vstd::arithmetic::div_mod::lemma_mod_add_multiples_vanish(sum - m, m);
        }
    }
}

} // verus!
