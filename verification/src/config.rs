//! The solver settings that the spk configuration provides.

use vstd::prelude::*;

verus! {

/// The solver section of the spk configuration, as plain values.
#[derive(Clone, Debug)]
pub struct SolverConfig {
    pub too_long_seconds: u64,
    pub verbosity_increase_limit: u8,
    pub solve_timeout: u64,
    pub long_solve_threshold: u64,
    pub max_frequent_errors: usize,
    pub solver_to_run: String,
    pub solver_to_show: String,
    pub check_impossible_validation: bool,
    pub check_impossible_initial: bool,
    pub check_impossible_builds: bool,
}

} // verus!
