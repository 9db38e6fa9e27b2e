use vstd::prelude::*;

verus! {

/// Denominator of the mutation probability: a probability is given in
/// millionths, so `mutation_probability == PROB_SCALE` means 1.
pub const PROB_SCALE: u32 = 1_000_000;

/// Largest accepted population size and period count. Selection weights
/// (at most `PROB_SCALE` each) summed over a population this large still
/// fit comfortably in a `u64`, and a genome this large keeps every fitness
/// sum inside an `i64`.
pub const MAX_SIZE: usize = 0x4_0000;

/// The run's configuration, immutable once validated: how many candidate
/// timetables a generation holds, how many periods a timetable has, and
/// the per-period mutation probability in millionths.
#[derive(Clone, Copy, PartialEq, Eq, Structural, Debug)]
pub struct AlgorithmConfig {
    pub population_size: usize,
    pub number_of_periods: usize,
    pub mutation_probability: u32,
}

/// Why a configuration was rejected.
#[derive(Clone, Copy, PartialEq, Eq, Structural, Debug)]
pub enum ConfigError {
    NonPositivePopulation,
    NonPositivePeriods,
    ProbabilityOutOfRange,
    Oversized,
}

impl AlgorithmConfig {
    /// Both counts positive, the probability at most 1, and the counts
    /// within the machine bounds of this crate.
    pub open spec fn valid(self) -> bool {
        &&& self.population_size > 0
        &&& self.number_of_periods > 0
        &&& self.mutation_probability <= PROB_SCALE
        &&& self.population_size <= MAX_SIZE
        &&& self.number_of_periods <= MAX_SIZE
    }

    /// Fail-fast validation: accepts exactly the valid configurations and
    /// names the first constraint a rejected one breaks.
    pub fn check(&self) -> (r: Result<(), ConfigError>)
        ensures
            r is Ok <==> self.valid(),
    {
        if self.population_size == 0 {
            Err(ConfigError::NonPositivePopulation)
        } else if self.number_of_periods == 0 {
            Err(ConfigError::NonPositivePeriods)
        } else if self.mutation_probability > PROB_SCALE {
            Err(ConfigError::ProbabilityOutOfRange)
        } else if self.population_size > MAX_SIZE || self.number_of_periods > MAX_SIZE {
            Err(ConfigError::Oversized)
        } else {
            Ok(())
        }
    }
}

} // verus!
