//! Payload-neutral deterministic spatial hashing.
//!
//! Integer spatial coordinates and caller-provided seeds map to stable hash
//! values. The module owns no generation, residency or provider policy.

use vstd::prelude::*;

verus! {

/// First additive constant of the mixing step.
pub const MIX_ADD: u64 = 0x9e37_79b9_7f4a_7c15;

/// First multiplicative constant of the mixing step.
pub const MIX_MUL_1: u64 = 0xbf58_476d_1ce4_e5b9;

/// Second multiplicative constant of the mixing step.
pub const MIX_MUL_2: u64 = 0x94d0_49bb_1331_11eb;

/// Seed of the finalisation step.
pub const FINALIZE_SEED: u64 = 0x243f_6a88_85a3_08d3;

/// The raw mixing function: one xor-add of the value into the seed, then two
/// xor-shift-multiply rounds and a final xor-shift.
pub open spec fn spec_mix_u64(seed: u64, value: u64) -> u64 {
    let h0 = seed ^ vstd::wrapping::u64_specs::wrapping_add(value, MIX_ADD);
    let h1 = h0 ^ (h0 >> 30u64);
    let h2 = vstd::wrapping::u64_specs::wrapping_mul(h1, MIX_MUL_1);
    let h3 = h2 ^ (h2 >> 27u64);
    let h4 = vstd::wrapping::u64_specs::wrapping_mul(h3, MIX_MUL_2);
    h4 ^ (h4 >> 31u64)
}

/// A signed value is mixed by its two's-complement bit pattern.
pub open spec fn spec_mix_i64(seed: u64, value: i64) -> u64 {
    spec_mix_u64(seed, value as u64)
}

/// Finalisation: the state mixed into a fixed seed.
pub open spec fn spec_finalize_u64(value: u64) -> u64 {
    spec_mix_u64(FINALIZE_SEED, value)
}

/// The state after mixing every value of `values`, in order, into `seed`.
pub open spec fn spec_mix_all(seed: u64, values: Seq<i64>) -> u64
    decreases values.len(),
{
    if values.len() == 0 {
        seed
    } else {
        spec_mix_i64(spec_mix_all(seed, values.drop_last()), values.last())
    }
}

/// Seed used by the deterministic spatial hash functions.
#[derive(Clone, Copy, Debug, Default, Eq, PartialEq, Structural, Hash)]
pub struct SpatialHashSeed(u64);

impl View for SpatialHashSeed {
    type V = u64;

    closed spec fn view(&self) -> u64 {
        self.0
    }
}

impl SpatialHashSeed {
    /// Creates a new hash seed.
    #[must_use]
    pub fn new(value: u64) -> (seed: Self)
        ensures
            seed@ == value,
    {
        SpatialHashSeed(value)
    }

    /// Returns the raw seed value.
    #[must_use]
    pub fn value(self) -> (value: u64)
        ensures
            value == self@,
    {
        self.0
    }

    /// Returns a new seed mixed with one signed integer value.
    #[must_use]
    pub fn mix_i64(self, value: i64) -> (seed: Self)
        ensures
            seed@ == spec_mix_i64(self@, value),
    {
        SpatialHashSeed(mix_i64(self.0, value))
    }
}

/// Stable spatial hash value.
#[derive(Clone, Copy, Debug, Default, Eq, PartialEq, Structural, Hash)]
pub struct SpatialHashValue(u64);

impl View for SpatialHashValue {
    type V = u64;

    closed spec fn view(&self) -> u64 {
        self.0
    }
}

impl SpatialHashValue {
    /// Creates a hash value from raw bits.
    #[must_use]
    pub fn new(value: u64) -> (hash: Self)
        ensures
            hash@ == value,
    {
        SpatialHashValue(value)
    }

    /// Returns the raw hash bits.
    #[must_use]
    pub fn value(self) -> (value: u64)
        ensures
            value == self@,
    {
        self.0
    }

    /// Maps the hash into a bucket index; `None` for zero buckets.
    #[must_use]
    pub fn bucket_index(self, bucket_count: u64) -> (index: Option<u64>)
        ensures
            bucket_count == 0 ==> index is None,
            bucket_count != 0 ==> index == Some((self@ % bucket_count) as u64),
            index matches Some(i) ==> i < bucket_count,
    {
        if bucket_count == 0 {
            None
        } else {
            Some(self.0 % bucket_count)
        }
    }
}

/// Mixes one signed integer into raw hash state, by its two's-complement bits.
#[must_use]
pub fn mix_i64(seed: u64, value: i64) -> (mixed: u64)
    ensures
        mixed == spec_mix_i64(seed, value),
{
    mix_u64(seed, value as u64)
}

/// Mixes one unsigned integer into raw hash state.
#[must_use]
pub fn mix_u64(seed: u64, value: u64) -> (mixed: u64)
    ensures
        mixed == spec_mix_u64(seed, value),
{
    let mut h = seed ^ value.wrapping_add(MIX_ADD);
    h = h ^ (h >> 30u64);
    h = h.wrapping_mul(MIX_MUL_1);
    h = h ^ (h >> 27u64);
    h = h.wrapping_mul(MIX_MUL_2);
    h ^ (h >> 31u64)
}

/// Finalizes raw hash state.
#[must_use]
pub fn finalize_u64(value: u64) -> (hash: SpatialHashValue)
    ensures
        hash@ == spec_finalize_u64(value),
{
    SpatialHashValue(mix_u64(FINALIZE_SEED, value))
}

/// Hashes an ordered sequence of signed integers.
#[must_use]
pub fn hash_i64s(seed: SpatialHashSeed, values: &[i64]) -> (hash: SpatialHashValue)
    ensures
        hash@ == spec_finalize_u64(spec_mix_all(seed@, values@)),
{
    let mut state = seed.value();
    let mut i: usize = 0;
    while i < values.len()
        invariant
            i <= values@.len(),
            state == spec_mix_all(seed@, values@.take(i as int)),
        decreases values@.len() - i,
    {
        assert(values@.take(i + 1).drop_last() =~= values@.take(i as int));
        state = mix_i64(state, values[i]);
        i = i + 1;
    }
    assert(values@.take(values@.len() as int) =~= values@);
    finalize_u64(state)
}

/// Hashes a 2D integer cell: the hash of the sequence `[x, z]`.
#[must_use]
pub fn hash_cell2(seed: SpatialHashSeed, x: i64, z: i64) -> (hash: SpatialHashValue)
    ensures
        hash@ == spec_finalize_u64(spec_mix_i64(spec_mix_i64(seed@, x), z)),
        hash@ == spec_finalize_u64(spec_mix_all(seed@, seq![x, z])),
{
    proof {
        reveal_with_fuel(spec_mix_all, 3);
        assert(seq![x, z].drop_last() =~= seq![x]);
        assert(seq![x].drop_last() =~= Seq::<i64>::empty());
    }
    finalize_u64(mix_i64(mix_i64(seed.value(), x), z))
}

/// Hashes a 3D integer cell: the hash of the sequence `[x, y, z]`.
#[must_use]
pub fn hash_cell3(seed: SpatialHashSeed, x: i64, y: i64, z: i64) -> (hash: SpatialHashValue)
    ensures
        hash@ == spec_finalize_u64(spec_mix_i64(spec_mix_i64(spec_mix_i64(seed@, x), y), z)),
        hash@ == spec_finalize_u64(spec_mix_all(seed@, seq![x, y, z])),
{
    proof {
        reveal_with_fuel(spec_mix_all, 4);
        assert(seq![x, y, z].drop_last() =~= seq![x, y]);
        assert(seq![x, y].drop_last() =~= seq![x]);
        assert(seq![x].drop_last() =~= Seq::<i64>::empty());
    }
    finalize_u64(mix_i64(mix_i64(mix_i64(seed.value(), x), y), z))
}

} // verus!
