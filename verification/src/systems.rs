//! The simulation systems and their integer-valued decision rules.
//!
//! Each system owns the numerical update of one subsystem; the
//! floating-point arithmetic runs outside the library, and the decisions
//! that the world state depends on — head counts, employment clamping,
//! starvation notes — are functions here with exact contracts.  The
//! systems run in a fixed order: Environment, Infrastructure,
//! Population, Economy, Finance, Policy, Technology, Bookkeeping.

use vstd::prelude::*;

verus! {

/// Totals the bookkeeping system records at the end of a tick.
#[derive(Clone, Copy, Debug, PartialEq, Eq, Structural)]
pub struct BookkeepingMetrics {
    pub total_population: u64,
    pub tick: u64,
}

/// Regrows food and energy stocks.
pub struct EnvironmentSystem;

impl EnvironmentSystem {
    pub fn new() -> Self {
        Self
    }

    pub fn name(&self) -> (r: &'static str)
        ensures
            r@ == "environment"@,
    {
        "environment"
    }
}

impl Default for EnvironmentSystem {
    fn default() -> Self {
        Self::new()
    }
}

/// Degrades, repairs and charges for infrastructure.
pub struct InfrastructureSystem;

impl InfrastructureSystem {
    pub fn new() -> Self {
        Self
    }

    pub fn name(&self) -> (r: &'static str)
        ensures
            r@ == "infrastructure"@,
    {
        "infrastructure"
    }
}

impl Default for InfrastructureSystem {
    fn default() -> Self {
        Self::new()
    }
}

/// Births, deaths, starvation and job matching.
pub struct PopulationSystem;

impl PopulationSystem {
    pub fn new() -> Self {
        Self
    }

    pub fn name(&self) -> (r: &'static str)
        ensures
            r@ == "population"@,
    {
        "population"
    }

    /// Apply one tick of vital statistics to a region's head counts.
    ///
    /// `net_delta` is births minus deaths minus the starvation penalty;
    /// `desired_employment` is the labor the employers ask for.  The
    /// new citizen count never goes below zero, and the employed stay
    /// within the population: employed is at most citizens.
    pub fn apply_vital_update(citizens: u64, net_delta: i64, desired_employment: i64) -> (r: (
        u64,
        u64,
    ))
        requires
            citizens <= i64::MAX,
            citizens + net_delta <= i64::MAX,
        ensures
            r.0 == if citizens + net_delta >= 0 {
                citizens + net_delta
            } else {
                0int
            },
            r.1 == spec_min_u64(spec_clamp_i64(desired_employment, 0, citizens as i64) as u64, r.0 as int),
            r.1 <= r.0,
    {
        let desired = if desired_employment < 0 {
            0
        } else if desired_employment > citizens as i64 {
            citizens
        } else {
            desired_employment as u64
        };
        let signed_citizens = citizens as i64 + net_delta;
        let next_citizens = if signed_citizens >= 0 {
            signed_citizens as u64
        } else {
            0
        };
        let employed = if desired < next_citizens {
            desired
        } else {
            next_citizens
        };
        (next_citizens, employed)
    }
}

impl Default for PopulationSystem {
    fn default() -> Self {
        Self::new()
    }
}

/// Production, trade, prices and wages.
pub struct EconomySystem;

impl EconomySystem {
    pub fn new() -> Self {
        Self
    }

    pub fn name(&self) -> (r: &'static str)
        ensures
            r@ == "economy"@,
    {
        "economy"
    }
}

impl Default for EconomySystem {
    fn default() -> Self {
        Self::new()
    }
}

/// Deposits, loans, interest and defaults.
pub struct FinanceSystem;

impl FinanceSystem {
    pub fn new() -> Self {
        Self
    }

    pub fn name(&self) -> (r: &'static str)
        ensures
            r@ == "finance"@,
    {
        "finance"
    }
}

impl Default for FinanceSystem {
    fn default() -> Self {
        Self::new()
    }
}

/// Taxes, transfers, public investment and approval.
pub struct PolicySystem;

impl PolicySystem {
    pub fn new() -> Self {
        Self
    }

    pub fn name(&self) -> (r: &'static str)
        ensures
            r@ == "policy"@,
    {
        "policy"
    }

    /// Policy only acts on inhabited regions.
    pub fn acts_on(citizens: u64) -> (r: bool)
        ensures
            r == (citizens > 0),
    {
        citizens > 0
    }
}

impl Default for PolicySystem {
    fn default() -> Self {
        Self::new()
    }
}

/// Research progress and unlocked technologies.
pub struct TechnologySystem;

impl TechnologySystem {
    pub fn new() -> Self {
        Self
    }

    pub fn name(&self) -> (r: &'static str)
        ensures
            r@ == "technology"@,
    {
        "technology"
    }
}

impl Default for TechnologySystem {
    fn default() -> Self {
        Self::new()
    }
}

/// Runs last: clamps stocks, tidies the starving list, records totals.
pub struct BookkeepingSystem {
    system_id: u32,
    latest: Option<BookkeepingMetrics>,
}

impl BookkeepingSystem {
    pub closed spec fn spec_system_id(&self) -> u32 {
        self.system_id
    }

    pub closed spec fn spec_latest(&self) -> Option<BookkeepingMetrics> {
        self.latest
    }

    pub fn new() -> (r: Self)
        ensures
            r.spec_system_id() == 999,
            r.spec_latest() is None,
    {
        Self { system_id: 999, latest: None }
    }

    pub fn name(&self) -> (r: &'static str)
        ensures
            r@ == "bookkeeping"@,
    {
        "bookkeeping"
    }

    pub fn system_id(&self) -> (r: u32)
        ensures
            r == self.spec_system_id(),
    {
        self.system_id
    }

    /// Record the totals of the tick that just ran.
    pub fn record(&mut self, total_population: u64, tick: u64)
        ensures
            final (self).spec_latest() == Some(BookkeepingMetrics { total_population, tick }),
            final (self).spec_system_id() == old(self).spec_system_id(),
    {
        self.latest = Some(BookkeepingMetrics { total_population, tick });
    }

    /// The totals recorded by the most recent tick, if any ran.
    pub fn latest_metrics(&self) -> (r: Option<BookkeepingMetrics>)
        ensures
            r == self.spec_latest(),
    {
        self.latest
    }
}

impl Default for BookkeepingSystem {
    fn default() -> (r: Self)
        ensures
            r.spec_system_id() == 999,
            r.spec_latest() is None,
    {
        Self::new()
    }
}

/// The smaller of two counts.
pub open spec fn spec_min_u64(a: u64, b: int) -> int {
    if a <= b {
        a as int
    } else {
        b
    }
}

/// A value clamped to a closed interval.
pub open spec fn spec_clamp_i64(x: i64, lo: i64, hi: i64) -> i64
    recommends
        lo <= hi,
{
    if x < lo {
        lo
    } else if x > hi {
        hi
    } else {
        x
    }
}

} // verus!
