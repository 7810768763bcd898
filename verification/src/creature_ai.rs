//! The decisions of a creature's turn: whether a nearby enemy interrupts its
//! task, and what its combat movement and task state call for next. The
//! measurements behind them (needs, mood, ranges, which enemies are near)
//! are floating-point work done by the caller, who hands in their results.
use vstd::prelude::*;
use crate::tiles::TilePos;

verus! {

/// How a creature that attacks should move this turn.
#[derive(Clone, Copy, Debug, PartialEq, Eq, Structural)]
pub enum CombatMove {
    /// At its preferred range: stay and fight.
    StayAndFight,
    /// Too far: move closer to the target.
    ChaseTarget,
    /// Too close for a ranged attacker: back off to this spot.
    Kite(TilePos),
    /// The target is dead or gone.
    TargetLost,
}

/// What becomes of a creature's task when it goes on with its turn.
#[derive(Clone, Copy, Debug, PartialEq, Eq, Structural)]
pub enum TaskChoice {
    /// It keeps the task it has.
    Keep,
    /// A wild creature idles, which makes it wander.
    Idle,
    /// A dungeon creature has a task chosen for it.
    Decide,
}

/// The plan of a creature's turn.
#[derive(Clone, Copy, Debug, PartialEq, Eq, Structural)]
pub enum CreaturePlan {
    /// Stay and fight: nothing else happens this turn.
    Hold,
    /// Take a one-step path to this spot and move along it; nothing else.
    Kite(TilePos),
    /// Drop the task and the path; nothing else.
    DropTarget,
    /// Go on: clear the path first when `clear_path`, settle the task as
    /// `task` says, then find a path if one is needed and move.
    Proceed { clear_path: bool, task: TaskChoice },
}

/// The enemy a creature turns to attack, if its task is interrupted: not
/// while it already attacks or deserts; otherwise the first enemy found
/// near it, if any.
pub fn combat_interrupt(attacking: bool, deserting: bool, first_enemy: Option<u64>) -> (r: Option<u64>)
    ensures
        r == (if attacking || deserting {
            None
        } else {
            first_enemy
        }),
{
    if attacking || deserting {
        None
    } else {
        first_enemy
    }
}

/// Whether a chasing creature's path no longer ends at its target: it has a
/// path, and the path is empty or ends elsewhere. With no path there is
/// nothing stale; one is found later in the turn.
pub fn path_is_stale(path: Option<&Vec<TilePos>>, target: TilePos) -> (r: bool)
    ensures
        r == match path {
            Some(p) => p@.len() == 0 || p@.last() != target,
            None => false,
        },
{
    match path {
        Some(p) => {
            if p.len() == 0 {
                true
            } else {
                p[p.len() - 1] != target
            }
        },
        None => false,
    }
}

/// Plan a creature's turn. `combat` is how it should move when its task
/// (after any combat interrupt) is to attack, and none otherwise;
/// `path_stale` whether its path misses the target it chases (see
/// `path_is_stale`); `needs_new_task` whether it had neither a path nor a
/// task at the start of the turn; `is_wild` whether it is not of the
/// dungeon's faction.
pub fn plan_creature_turn(combat: Option<CombatMove>, path_stale: bool, needs_new_task: bool, is_wild: bool) -> (r: CreaturePlan)
    ensures
        r == match combat {
            Some(CombatMove::StayAndFight) => CreaturePlan::Hold,
            Some(CombatMove::Kite(p)) => CreaturePlan::Kite(p),
            Some(CombatMove::TargetLost) => CreaturePlan::DropTarget,
            _ => CreaturePlan::Proceed {
                clear_path: combat == Some(CombatMove::ChaseTarget) && path_stale,
                task: if !needs_new_task {
                    TaskChoice::Keep
                } else if is_wild {
                    TaskChoice::Idle
                } else {
                    TaskChoice::Decide
                },
            },
        },
{
    let clear_path = match combat {
        Some(CombatMove::StayAndFight) => {
            return CreaturePlan::Hold;
        },
        Some(CombatMove::Kite(p)) => {
            return CreaturePlan::Kite(p);
        },
        Some(CombatMove::TargetLost) => {
            return CreaturePlan::DropTarget;
        },
        Some(CombatMove::ChaseTarget) => path_stale,
        None => false,
    };
    let task = if !needs_new_task {
        TaskChoice::Keep
    } else if is_wild {
        TaskChoice::Idle
    } else {
        TaskChoice::Decide
    };
    CreaturePlan::Proceed { clear_path, task }
}

/// Whether a creature goes on to find a path once its task is settled: it
/// has a task and no path.
pub fn needs_path(has_path: bool, has_task: bool) -> (r: bool)
    ensures
        r == (!has_path && has_task),
{
    !has_path && has_task
}

} // verus!
