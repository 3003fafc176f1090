//! Construction parameters of a world, and their validation.

use vstd::prelude::*;
use crate::rng::PER_MILLE;

verus! {

/// Whom a reproducing organism takes its second genome from.
#[derive(Clone, Copy, Debug, PartialEq, Eq, Structural)]
pub enum PartnerPolicy {
    /// The organism recombines its genome with itself.
    SelfCrossover,
    /// The nearest organism within the sensing radius that has already acted
    /// this tick; the organism itself when there is none.
    NearestPartner,
}

/// World parameters. Probabilities are per mille (`0..=1000`).
#[derive(Clone, Copy, Debug, PartialEq, Eq, Structural)]
pub struct Config {
    pub width: u32,
    pub height: u32,
    pub initial_population: u32,
    pub max_population: u32,
    pub mutation_rate: u32,
    pub crossover_bias: u32,
    pub resource_regen_rate: u64,
    pub resource_cap: u64,
    pub metabolism_cost: u64,
    pub reproduction_threshold: u64,
    pub reproduction_cost: u64,
    pub initial_energy: u64,
    pub max_age: u32,
    pub sense_radius: u32,
    pub partner_policy: PartnerPolicy,
    pub seed: u64,
}

/// The first offending field of a rejected configuration.
#[derive(Clone, Copy, Debug, PartialEq, Eq, Structural)]
pub enum ConfigError {
    ZeroWidth,
    ZeroHeight,
    ZeroMaxPopulation,
    InitialPopulationAboveMax,
    MutationRateOutOfRange,
    CrossoverBiasOutOfRange,
    ZeroMaxAge,
    GridTooLarge,
}

/// The error a configuration is rejected with, fields checked in declaration
/// order; `None` for a valid configuration.
pub open spec fn config_error(c: Config) -> Option<ConfigError> {
    if c.width == 0 {
        Some(ConfigError::ZeroWidth)
    } else if c.height == 0 {
        Some(ConfigError::ZeroHeight)
    } else if c.max_population == 0 {
        Some(ConfigError::ZeroMaxPopulation)
    } else if c.initial_population > c.max_population {
        Some(ConfigError::InitialPopulationAboveMax)
    } else if c.mutation_rate > PER_MILLE {
        Some(ConfigError::MutationRateOutOfRange)
    } else if c.crossover_bias > PER_MILLE {
        Some(ConfigError::CrossoverBiasOutOfRange)
    } else if c.max_age == 0 {
        Some(ConfigError::ZeroMaxAge)
    } else if c.width * c.height > usize::MAX {
        Some(ConfigError::GridTooLarge)
    } else {
        None
    }
}

pub open spec fn config_valid(c: Config) -> bool {
    config_error(c).is_none()
}

impl Config {
    /// A configuration with the given extent, population bounds, mutation
    /// rate and seed, and moderate defaults for everything else.
    pub fn new(
        width: u32,
        height: u32,
        initial_population: u32,
        max_population: u32,
        mutation_rate: u32,
        seed: u64,
    ) -> (c: Config)
        ensures
            c.width == width,
            c.height == height,
            c.initial_population == initial_population,
            c.max_population == max_population,
            c.mutation_rate == mutation_rate,
            c.seed == seed,
            c.crossover_bias == 500,
            c.resource_regen_rate == 2,
            c.resource_cap == 20,
            c.metabolism_cost == 3,
            c.reproduction_threshold == 60,
            c.reproduction_cost == 30,
            c.initial_energy == 40,
            c.max_age == 60,
            c.sense_radius == 2,
            c.partner_policy == PartnerPolicy::NearestPartner,
    {
        Config {
            width,
            height,
            initial_population,
            max_population,
            mutation_rate,
            crossover_bias: 500,
            resource_regen_rate: 2,
            resource_cap: 20,
            metabolism_cost: 3,
            reproduction_threshold: 60,
            reproduction_cost: 30,
            initial_energy: 40,
            max_age: 60,
            sense_radius: 2,
            partner_policy: PartnerPolicy::NearestPartner,
            seed,
        }
    }

    /// Checks every field; the error names the first one that is invalid.
    pub fn validate(&self) -> (r: Result<(), ConfigError>)
        ensures
            r.is_ok() <==> config_valid(*self),
            r matches Err(e) ==> config_error(*self) == Some(e),
    {
        proof {
            assert(0 <= self.width * self.height <= 0xffff_ffffu32 * 0xffff_ffffu32) by (nonlinear_arith);
        }
        let cells: u64 = (self.width as u64) * (self.height as u64);
        if self.width == 0 {
            Err(ConfigError::ZeroWidth)
        } else if self.height == 0 {
            Err(ConfigError::ZeroHeight)
        } else if self.max_population == 0 {
            Err(ConfigError::ZeroMaxPopulation)
        } else if self.initial_population > self.max_population {
            Err(ConfigError::InitialPopulationAboveMax)
        } else if self.mutation_rate as u64 > PER_MILLE {
            Err(ConfigError::MutationRateOutOfRange)
        } else if self.crossover_bias as u64 > PER_MILLE {
            Err(ConfigError::CrossoverBiasOutOfRange)
        } else if self.max_age == 0 {
            Err(ConfigError::ZeroMaxAge)
        } else if cells > usize::MAX as u64 {
            Err(ConfigError::GridTooLarge)
        } else {
            Ok(())
        }
    }
}

} // verus!
