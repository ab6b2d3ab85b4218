//! The settings of a terrain build and the check of its sites.

use crate::error::TerrainError;
use crate::key::{lemma_pair_key_injective, pair_key, pair_key_of};
use std::collections::HashSet;
use vstd::prelude::*;

verus! {

broadcast use vstd::std_specs::hash::group_hash_axioms;

/// A site as the bit patterns of its two coordinates, `(x.to_bits(), y.to_bits())`.
pub type SiteBits = (u64, u64);

/// The sign bit of an `f64`; alone, it is the pattern of `-0.0`.
pub const SIGN_BIT: u64 = 0x8000_0000_0000_0000;

/// The pattern of positive infinity: every exponent bit set, no mantissa bit.
pub const INFINITY_BITS: u64 = 0x7FF0_0000_0000_0000;

/// The pattern is a NaN: every exponent bit set and some mantissa bit set,
/// whatever the sign.
pub open spec fn is_nan_bits(b: u64) -> bool {
    b % SIGN_BIT > INFINITY_BITS
}

/// The pattern that stands for the coordinate's value: `-0.0` and `0.0` are
/// one number, and every other value has a single pattern.
pub open spec fn coord_value(b: u64) -> u64 {
    if b == SIGN_BIT {
        0
    } else {
        b
    }
}

/// The two sites are the same point: their coordinates are equal as numbers.
pub open spec fn same_point(s: SiteBits, t: SiteBits) -> bool {
    coord_value(s.0) == coord_value(t.0) && coord_value(s.1) == coord_value(t.1)
}

/// At least three sites, no coordinate a NaN, and no two sites the same point.
pub open spec fn sites_valid(sites: Seq<SiteBits>) -> bool {
    &&& sites.len() >= 3
    &&& forall|i: int| 0 <= i < sites.len() ==> !is_nan_bits((#[trigger] sites[i]).0) && !is_nan_bits(sites[i].1)
    &&& forall|i: int, j: int|
        0 <= i < j < sites.len() ==> !same_point(#[trigger] sites[i], #[trigger] sites[j])
}

pub open spec fn site_key(s: SiteBits) -> u128 {
    pair_key(coord_value(s.0) as int, coord_value(s.1) as int)
}

fn coord_value_of(b: u64) -> (v: u64)
    ensures
        v == coord_value(b),
{
    if b == SIGN_BIT {
        0
    } else {
        b
    }
}

fn site_key_of(s: SiteBits) -> (k: u128)
    ensures
        k == site_key(s),
{
    pair_key_of(coord_value_of(s.0), coord_value_of(s.1))
}

/// Rejects a site list that cannot give a well-formed decomposition: fewer
/// than three sites, a NaN coordinate, or two sites at the same point.
pub fn check_sites(sites: &Vec<SiteBits>) -> (res: Result<(), TerrainError>)
    ensures
        sites_valid(sites@) ==> res is Ok,
        !sites_valid(sites@) ==> res == Err::<(), TerrainError>(TerrainError::InvalidInput),
{
    if sites.len() < 3 {
        return Err(TerrainError::InvalidInput);
    }
    let mut seen: HashSet<u128> = HashSet::new();
    let mut i: usize = 0;
    while i < sites.len()
        invariant
            i <= sites@.len(),
            forall|p: int| 0 <= p < i ==> !is_nan_bits((#[trigger] sites@[p]).0) && !is_nan_bits(sites@[p].1),
            forall|p: int, q: int| 0 <= p < q < i ==> !same_point(#[trigger] sites@[p], #[trigger] sites@[q]),
            forall|k: u128|
                #[trigger] seen@.contains(k) <==> exists|p: int| 0 <= p < i && site_key(sites@[p]) == k,
        decreases sites@.len() - i,
    {
        let (x, y) = sites[i];
        if x % SIGN_BIT > INFINITY_BITS || y % SIGN_BIT > INFINITY_BITS {
            assert(is_nan_bits(sites@[i as int].0) || is_nan_bits(sites@[i as int].1));
            return Err(TerrainError::InvalidInput);
        }
        let key = site_key_of(sites[i]);
        if seen.contains(&key) {
            proof {
                let p = choose|p: int| 0 <= p < i && site_key(sites@[p]) == key;
                let (s, t) = (sites@[p], sites@[i as int]);
                lemma_pair_key_injective(
                    coord_value(s.0) as int,
                    coord_value(s.1) as int,
                    coord_value(t.0) as int,
                    coord_value(t.1) as int,
                );
                assert(same_point(sites@[p], sites@[i as int]));
            }
            return Err(TerrainError::InvalidInput);
        }
        let ghost before = seen@;
        seen.insert(key);
        proof {
            assert forall|p: int, q: int| 0 <= p < q < i + 1 implies !same_point(
                #[trigger] sites@[p],
                #[trigger] sites@[q],
            ) by {
                if q == i && same_point(sites@[p], sites@[q]) {
                    assert(site_key(sites@[p]) == key);
                    assert(before.contains(key));
                }
            }
            assert forall|k: u128| #[trigger] seen@.contains(k) <==> exists|p: int|
                0 <= p < i + 1 && site_key(sites@[p]) == k by {
                if k == key {
                    assert(site_key(sites@[i as int]) == k);
                } else if seen@.contains(k) {
                    assert(before.contains(k));
                }
            }
        }
        i += 1;
    }
    Ok(())
}

/// The settings of a terrain build, as plain values.
pub struct TerrainConfig {
    pub seed: usize,
    pub water_level: u32,
    pub height: u32,
    pub sites: Seq<SiteBits>,
}

/// Collects the settings of a terrain build: the noise seed, the sites, the
/// water level and the height scale.
pub struct VoronoiTerrainBuilder {
    seed: usize,
    water_level: u32,
    height: u32,
    sites: Vec<SiteBits>,
}

impl View for VoronoiTerrainBuilder {
    type V = TerrainConfig;

    closed spec fn view(&self) -> TerrainConfig {
        TerrainConfig {
            seed: self.seed,
            water_level: self.water_level,
            height: self.height,
            sites: self.sites@,
        }
    }
}

pub const HALF_WORD: u64 = 0x1_0000_0000;

/// A seed folded into 32 bits: its low and high halves added, modulo 2^32.
pub open spec fn fold_seed(seed: int) -> int {
    (seed % HALF_WORD as int + seed / HALF_WORD as int) % HALF_WORD as int
}

pub const DEFAULT_WATER_LEVEL: u32 = 50;

pub const DEFAULT_HEIGHT: u32 = 100;

impl VoronoiTerrainBuilder {
    /// A builder with the given seed, no sites, the default water level and
    /// the default height scale. The caller picks the seed source.
    pub fn new(seed: usize) -> (b: Self)
        ensures
            b@.seed == seed,
            b@.water_level == DEFAULT_WATER_LEVEL,
            b@.height == DEFAULT_HEIGHT,
            b@.sites == Seq::<SiteBits>::empty(),
    {
        VoronoiTerrainBuilder {
            seed,
            water_level: DEFAULT_WATER_LEVEL,
            height: DEFAULT_HEIGHT,
            sites: Vec::new(),
        }
    }

    pub fn set_seed(&mut self, seed: usize) -> (b: &mut Self)
        ensures
            b@ == (TerrainConfig { seed, ..old(self)@ }),
            final(self)@ == final(b)@,
    {
        self.seed = seed;
        self
    }

    pub fn set_sites(&mut self, sites: Vec<SiteBits>) -> (b: &mut Self)
        ensures
            b@ == (TerrainConfig { sites: sites@, ..old(self)@ }),
            final(self)@ == final(b)@,
    {
        self.sites = sites;
        self
    }

    pub fn set_water_level(&mut self, water_level: u32) -> (b: &mut Self)
        ensures
            b@ == (TerrainConfig { water_level, ..old(self)@ }),
            final(self)@ == final(b)@,
    {
        self.water_level = water_level;
        self
    }

    pub fn set_height(&mut self, height: u32) -> (b: &mut Self)
        ensures
            b@ == (TerrainConfig { height, ..old(self)@ }),
            final(self)@ == final(b)@,
    {
        self.height = height;
        self
    }

    /// Checks the sites before any tessellation; see `check_sites`.
    pub fn validate(&self) -> (res: Result<(), TerrainError>)
        ensures
            sites_valid(self@.sites) ==> res is Ok,
            !sites_valid(self@.sites) ==> res == Err::<(), TerrainError>(TerrainError::InvalidInput),
    {
        check_sites(&self.sites)
    }

    /// The seed as the `u32` that the noise generator takes: the low and the
    /// high 32 bits added, modulo 2^32, so that every bit of the seed counts.
    pub fn noise_seed(&self) -> (r: u32)
        ensures
            r as int == fold_seed(self@.seed as int),
    {
        let s = self.seed as u64;
        ((s % HALF_WORD + s / HALF_WORD) % HALF_WORD) as u32
    }

    pub fn seed(&self) -> (r: usize)
        ensures
            r == self@.seed,
    {
        self.seed
    }

    pub fn water_level(&self) -> (r: u32)
        ensures
            r == self@.water_level,
    {
        self.water_level
    }

    pub fn height(&self) -> (r: u32)
        ensures
            r == self@.height,
    {
        self.height
    }

    pub fn sites(&self) -> (r: &Vec<SiteBits>)
        ensures
            r@ == self@.sites,
    {
        &self.sites
    }
}

} // verus!
