use vstd::prelude::*;
use crate::worldgen::random::legacy_random::{LegacyRandom, next_long_spec, scrambled};
use crate::worldgen::random::java::JavaRandom;

verus! {

/// A generator for world generation, drawing its bits from a legacy generator.
pub struct WorldgenRandom {
    rand_source: LegacyRandom,
}

impl WorldgenRandom {
    /// The state of the underlying generator.
    pub closed spec fn state(&self) -> int {
        self.rand_source.state()
    }

    pub fn new(rand_source: LegacyRandom) -> (r: WorldgenRandom)
        ensures
            r.state() == rand_source.state(),
    {
        WorldgenRandom { rand_source }
    }

    /// Resets the underlying generator to the scrambled seed.
    pub fn set_seed(&mut self, seed: i64)
        ensures
            final(self).state() == scrambled(seed),
    {
        self.rand_source.set_seed(seed)
    }

    /// Draws a 64-bit value from the underlying generator.
    pub fn next_long(&mut self) -> (r: i64)
        ensures
            (r, final(self).state()) == next_long_spec(old(self).state()),
    {
        self.rand_source.next_long()
    }
}

/// The decoration seed of a chunk: two draws after seeding with the level seed, each with its
/// low bit set, weight the chunk's block coordinates.
pub open spec fn decoration_seed(level_seed: i64, x: i32, z: i32) -> i64 {
    let (l0, s1) = next_long_spec(scrambled(level_seed));
    let (m0, s2) = next_long_spec(s1);
    let l = l0 | 1i64;
    let m = m0 | 1i64;
    (x as i64).wrapping_mul(l).wrapping_add((z as i64).wrapping_mul(m)) ^ level_seed
}

/// The seed of a feature: the decoration seed plus the feature index plus ten thousand times the
/// decoration step, wrapping.
pub open spec fn feature_seed(decoration_seed: i64, index: i32, decoration_step: i32) -> i64 {
    decoration_seed.wrapping_add(index as i64).wrapping_add(
        decoration_step.wrapping_mul(10000i32) as i64,
    )
}

/// The seed of a large feature in a chunk.
pub open spec fn large_feature_seed(base_seed: i64, chunk_x: i32, chunk_z: i32) -> i64 {
    let (l, s1) = next_long_spec(scrambled(base_seed));
    let (m, s2) = next_long_spec(s1);
    (chunk_x as i64).wrapping_mul(l) ^ (chunk_z as i64).wrapping_mul(m) ^ base_seed
}

/// The seed of a large feature in a region, with a salt.
pub open spec fn large_feature_salt_seed(level_seed: i64, region_x: i32, region_z: i32, salt: i32) -> i64 {
    (region_x as i64).wrapping_mul(341873128712i64).wrapping_add(
        (region_z as i64).wrapping_mul(132897987541i64),
    ).wrapping_add(level_seed).wrapping_add(salt as i64)
}

/// A random source for world generation.
pub struct Random {
    source: WorldgenRandom,
}

impl Random {
    /// The state of the underlying generator.
    pub closed spec fn state(&self) -> int {
        self.source.state()
    }

    pub fn new(source: WorldgenRandom) -> (r: Random)
        ensures
            r.state() == source.state(),
    {
        Random { source }
    }

    /// Draws a 64-bit value.
    pub fn next_long(&mut self) -> (r: i64)
        ensures
            (r, final(self).state()) == next_long_spec(old(self).state()),
    {
        self.source.next_long()
    }

    /// Seeds the generator for decorating the chunk whose minimum block is at `(x, z)` and returns
    /// that seed.
    pub fn set_decoration_seed(
        &mut self,
        level_seed: i64,
        min_chunk_block_x: i32,
        min_chunk_block_z: i32,
    ) -> (n: i64)
        ensures
            n == decoration_seed(level_seed, min_chunk_block_x, min_chunk_block_z),
            final(self).state() == scrambled(n),
    {
        self.source.set_seed(level_seed);
        let l = self.next_long() | 1;
        let m = self.next_long() | 1;
        let n = (min_chunk_block_x as i64).wrapping_mul(l).wrapping_add(
            (min_chunk_block_z as i64).wrapping_mul(m),
        ) ^ level_seed;
        self.source.set_seed(n);
        n
    }

    /// Seeds the generator for one feature of a decoration step.
    pub fn set_feature_seed(&mut self, decoration_seed: i64, index: i32, decoration_step: i32)
        ensures
            final(self).state() == scrambled(feature_seed(decoration_seed, index, decoration_step)),
    {
        let l = decoration_seed.wrapping_add(index as i64).wrapping_add(
            decoration_step.wrapping_mul(10000) as i64,
        );
        self.source.set_seed(l);
    }

    /// Seeds the generator for a large feature in the given chunk.
    pub fn set_large_feature_seed(&mut self, base_seed: i64, chunk_x: i32, chunk_z: i32)
        ensures
            final(self).state() == scrambled(large_feature_seed(base_seed, chunk_x, chunk_z)),
    {
        self.source.set_seed(base_seed);
        let l = self.next_long();
        let m = self.next_long();
        let n = (chunk_x as i64).wrapping_mul(l) ^ (chunk_z as i64).wrapping_mul(m) ^ base_seed;
        self.source.set_seed(n);
    }

    /// Seeds the generator for a large feature in the given region, with a salt.
    pub fn set_large_feature_with_salt(
        &mut self,
        level_seed: i64,
        region_x: i32,
        region_z: i32,
        salt: i32,
    )
        ensures
            final(self).state() == scrambled(
                large_feature_salt_seed(level_seed, region_x, region_z, salt),
            ),
    {
        let l = (region_x as i64).wrapping_mul(341873128712).wrapping_add(
            (region_z as i64).wrapping_mul(132897987541),
        ).wrapping_add(level_seed).wrapping_add(salt as i64);
        self.source.set_seed(l);
    }
}

/// The seed of the generator that decides whether a chunk is a slime chunk, all arithmetic
/// wrapping as the game does it.
pub open spec fn slime_seed(chunk_x: i32, chunk_z: i32, level_seed: i64, salt: i64) -> i64 {
    let x2 = chunk_x.wrapping_mul(chunk_x).wrapping_mul(4987142i32) as i64;
    let x1 = chunk_x.wrapping_mul(5947611i32) as i64;
    let z2 = (chunk_z.wrapping_mul(chunk_z) as i64).wrapping_mul(4392871i64);
    let z1 = chunk_z.wrapping_mul(389711i32) as i64;
    level_seed.wrapping_add(x2).wrapping_add(x1).wrapping_add(z2.wrapping_add(z1)) ^ salt
}

/// Creates the generator that decides whether a chunk is a slime chunk; the game always uses
/// the salt 987234911.
pub fn seed_slime_chunks(chunk_x: i32, chunk_z: i32, level_seed: i64, salt: i64) -> (r: JavaRandom)
    ensures
        r.state() == scrambled(slime_seed(chunk_x, chunk_z, level_seed, salt)),
        !r.has_gaussian(),
{
    let x2 = chunk_x.wrapping_mul(chunk_x).wrapping_mul(4987142i32) as i64;
    let x1 = chunk_x.wrapping_mul(5947611i32) as i64;
    let z2 = (chunk_z.wrapping_mul(chunk_z) as i64).wrapping_mul(4392871i64);
    let z1 = chunk_z.wrapping_mul(389711i32) as i64;
    JavaRandom::with_seed(level_seed.wrapping_add(x2).wrapping_add(x1).wrapping_add(z2.wrapping_add(z1)) ^ salt)
}

} // verus!
