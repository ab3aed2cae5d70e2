//! Scenario handling: locating scenario files and resolving run length.
//!
//! Reading and decoding the scenario text happens outside the library;
//! the loader here only carries the base directory, and the run length
//! rule is a function with an exact contract.

use vstd::prelude::*;

verus! {

/// Locates scenario files under a base directory.
pub struct ScenarioLoader {
    pub base_dir: String,
}

impl ScenarioLoader {
    pub fn new(base_dir: String) -> (r: Self)
        ensures
            r.base_dir@ == base_dir@,
    {
        Self { base_dir }
    }
}

/// The number of ticks a run gets: a caller override wins over the
/// scenario's own setting, and a run with neither gets 120 ticks.
pub fn resolve_ticks(scenario_ticks: Option<u64>, override_ticks: Option<u64>) -> (r: u64)
    ensures
        r == if override_ticks is Some {
            override_ticks->0
        } else if scenario_ticks is Some {
            scenario_ticks->0
        } else {
            120u64
        },
{
    match override_ticks {
        Some(t) => t,
        None => match scenario_ticks {
            Some(t) => t,
            None => 120,
        },
    }
}

} // verus!
