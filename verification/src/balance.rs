//! The integer parts of the balance calculator: its deterministic random
//! number generator and the records its reports are made of.
use vstd::prelude::*;

verus! {

/// Build cost and size limits of a room type, as the balance calculator
/// reads them.
#[derive(Clone, Copy, Debug, PartialEq, Eq, Structural)]
pub struct RoomBuild {
    pub cost_per_tile: i32,
    pub min_tiles: Option<u32>,
    pub max_tiles: Option<u32>,
}

/// Starting resources of the player.
#[derive(Clone, Copy, Debug, PartialEq, Eq, Structural)]
pub struct ResourceConfig {
    pub gold: i32,
    pub mana: i32,
    pub food: i32,
}

/// Initial resource capacity of the player.
#[derive(Clone, Copy, Debug, PartialEq, Eq, Structural)]
pub struct CapacityConfig {
    pub max_gold: i32,
    pub max_mana: i32,
}

/// How serious a failed balance check is.
#[derive(Clone, Copy, Debug, PartialEq, Eq, Structural)]
pub enum TestSeverity {
    Critical,
    Warning,
    Info,
}

/// The outcome of one balance check.
#[derive(Debug)]
pub struct BalanceTestResult {
    pub name: String,
    pub passed: bool,
    pub message: String,
    pub severity: TestSeverity,
}

/// The outcome of a simulated run of hero waves.
#[derive(Clone, Copy, Debug, PartialEq, Eq, Structural)]
pub struct WaveSurvivalResult {
    pub waves_survived: u32,
    pub total_heroes_killed: u32,
    pub final_army_size: u32,
    pub final_gold: i32,
}

/// The multiplier of the linear congruential generator (Numerical Recipes).
pub const LCG_MULTIPLIER: u64 = 6364136223846793005u64;

/// One step of the generator: `state * 6364136223846793005 + 1` modulo 2^64,
/// the product reduced first, as wrapping arithmetic does.
pub open spec fn lcg_step(state: u64) -> u64 {
    let product = ((state as nat * LCG_MULTIPLIER as nat) % 0x1_0000_0000_0000_0000nat) as u64;
    if product == u64::MAX {
        0
    } else {
        (product + 1) as u64
    }
}

/// The state after `n` steps.
pub open spec fn lcg_iterate(state: u64, n: nat) -> u64
    decreases n,
{
    if n == 0 {
        state
    } else {
        lcg_iterate(lcg_step(state), (n - 1) as nat)
    }
}

/// A simple deterministic random number generator (linear congruential).
pub struct SimpleRng {
    pub state: u64,
}

impl SimpleRng {
    /// A generator whose state is the seed.
    pub fn new(seed: u64) -> (r: Self)
        ensures
            r.state == seed,
    {
        SimpleRng { state: seed }
    }

    /// Advance the generator one step and return the new state.
    pub fn next(&mut self) -> (r: u64)
        ensures
            final(self).state == lcg_step(old(self).state),
            r == final(self).state,
    {
        let r = self.state.wrapping_mul(LCG_MULTIPLIER).wrapping_add(1);
        self.state = r;
        r
    }
}

/// The generator's stream: after `n + 1` steps from a seed the state is one
/// step on from the state after `n` steps, so a generator made from a seed
/// always produces the same numbers.
pub proof fn rng_stream_step(seed: u64, n: nat)
    ensures
        lcg_iterate(seed, n + 1) == lcg_step(lcg_iterate(seed, n)),
    decreases n,
{
    assert(lcg_iterate(seed, n + 1) == lcg_iterate(lcg_step(seed), n));
    if n > 0 {
        rng_stream_step(lcg_step(seed), (n - 1) as nat);
        assert(lcg_iterate(seed, n) == lcg_iterate(lcg_step(seed), (n - 1) as nat));
        assert((n - 1) as nat + 1 == n);
    }
}

/// The gold a smallest starting dungeon costs: nine tiles at 50, nine at 75
/// and four at 100.
pub const MIN_DUNGEON_COST: i32 = 1525;

/// The two critical resource checks of the balance tests: the player's mana
/// capacity is above zero, and the starting gold pays for a smallest
/// starting dungeon (`MIN_DUNGEON_COST`).
pub fn check_starting_resources(capacity: CapacityConfig, resources: ResourceConfig) -> (r: (bool, bool))
    ensures
        r.0 == (capacity.max_mana > 0),
        r.1 == (resources.gold >= 50 * 9 + 75 * 9 + 100 * 4),
{
    (capacity.max_mana > 0, resources.gold >= MIN_DUNGEON_COST)
}

} // verus!
