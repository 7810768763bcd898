//! Whether a spell can be cast: cooldown, costs, the cap on imps, and the
//! target the spell needs.
use vstd::prelude::*;
use crate::tiles::{TilePos, manhattan, str_eq};
use crate::grid::cells;
use crate::world::{GameState, Entity, EntityType, flat_tiles, first_heart_pos};
use crate::data::{SpellCost, TargetingData};
use crate::campaign::{holds_str, contains_str};

verus! {

/// Result of a spell cast attempt.
#[derive(Clone, Copy, Debug, PartialEq, Eq, Structural)]
pub enum CastResult {
    Success,
    InsufficientMana,
    InsufficientGold,
    InvalidTarget,
    OnCooldown,
    OutOfRange,
    MaxCapReached,
}

/// The most imps the player may have before summoning more is refused.
pub const MAX_IMPS: usize = 10;

/// `e` is an imp.
pub open spec fn is_imp(e: Entity) -> bool {
    match e.entity_type {
        EntityType::Creature(c) => c.creature_id@ == "imp"@,
        _ => false,
    }
}

/// Number of imps among `es`.
pub open spec fn count_imps_in(es: Seq<Entity>) -> nat
    decreases es.len(),
{
    if es.len() == 0 {
        0
    } else {
        count_imps_in(es.drop_last()) + if is_imp(es.last()) {
            1nat
        } else {
            0nat
        }
    }
}

/// Count the imps on the map.
pub fn count_imps(state: &GameState) -> (n: usize)
    ensures
        n == count_imps_in(state.entities@),
{
    let mut n: usize = 0;
    let mut i: usize = 0;
    while i < state.entities.len()
        invariant
            i <= state.entities@.len(),
            n == count_imps_in(state.entities@.take(i as int)),
            n <= i,
        decreases state.entities@.len() - i,
    {
        assert(state.entities@.take(i + 1).drop_last() =~= state.entities@.take(i as int));
        let imp = match &state.entities[i].entity_type {
            EntityType::Creature(c) => str_eq(c.creature_id.as_str(), "imp"),
            _ => false,
        };
        if imp {
            n = n + 1;
        }
        i = i + 1;
    }
    assert(state.entities@.take(state.entities@.len() as int) =~= state.entities@);
    n
}

/// The outcome of trying to cast a spell, checked in order: cooldown, mana,
/// gold, the imp cap and the rising cost of summoning imps, then the target
/// the spell's targeting type needs and its range from the dungeon heart.
pub open spec fn cast_outcome(
    spell_id: Seq<char>,
    cost: SpellCost,
    target_type: Seq<char>,
    range: u32,
    state: GameState,
    cooldowns: Seq<String>,
    target_pos: Option<TilePos>,
    has_target_entity: bool,
) -> CastResult {
    let imps = count_imps_in(state.entities@);
    let heart = first_heart_pos(flat_tiles(cells(&state.dungeon.grid)));
    if holds_str(cooldowns, spell_id) {
        CastResult::OnCooldown
    } else if state.player.mana < cost.mana {
        CastResult::InsufficientMana
    } else if state.player.gold < cost.gold {
        CastResult::InsufficientGold
    } else if spell_id == "summon_imps"@ && imps >= MAX_IMPS {
        CastResult::MaxCapReached
    } else if spell_id == "summon_imps"@ && state.player.mana < 10 + imps * 5 {
        CastResult::InsufficientMana
    } else if target_type == "tile"@ || target_type == "area"@ {
        match target_pos {
            None => CastResult::InvalidTarget,
            Some(p) => match heart {
                Some(hp) => if range > 0 && manhattan(p, hp) > range {
                    CastResult::OutOfRange
                } else {
                    CastResult::Success
                },
                None => CastResult::Success,
            },
        }
    } else if target_type == "creature"@ {
        if has_target_entity {
            CastResult::Success
        } else {
            CastResult::InvalidTarget
        }
    } else if target_type == "room"@ {
        if target_pos is Some {
            CastResult::Success
        } else {
            CastResult::InvalidTarget
        }
    } else {
        CastResult::Success
    }
}

/// Check if a spell can be cast. `cooldowns` lists the spells that are still
/// cooling down.
pub fn can_cast_spell(
    spell_id: &str,
    cost: &SpellCost,
    targeting: &TargetingData,
    game_state: &GameState,
    cooldowns: &Vec<String>,
    target_pos: Option<TilePos>,
    target_entity: Option<u64>,
) -> (r: CastResult)
    ensures
        r == cast_outcome(
            spell_id@,
            *cost,
            targeting.target_type@,
            targeting.range,
            *game_state,
            cooldowns@,
            target_pos,
            target_entity is Some,
        ),
{
    if contains_str(cooldowns, spell_id) {
        return CastResult::OnCooldown;
    }
    if game_state.player.mana < cost.mana {
        return CastResult::InsufficientMana;
    }
    if game_state.player.gold < cost.gold {
        return CastResult::InsufficientGold;
    }
    if str_eq(spell_id, "summon_imps") {
        let current_imps = count_imps(game_state);
        if current_imps >= MAX_IMPS {
            return CastResult::MaxCapReached;
        }
        let dynamic_cost: i32 = 10 + (current_imps as i32) * 5;
        if game_state.player.mana < dynamic_cost {
            return CastResult::InsufficientMana;
        }
    }
    let t = targeting.target_type.as_str();
    if str_eq(t, "tile") || str_eq(t, "area") {
        match target_pos {
            None => {
                return CastResult::InvalidTarget;
            },
            Some(pos) => {
                if let Some(heart_pos) = game_state.find_dungeon_heart_position() {
                    let distance = pos.manhattan_distance(&heart_pos);
                    if targeting.range > 0 && distance > targeting.range as i64 {
                        return CastResult::OutOfRange;
                    }
                }
            },
        }
    } else if str_eq(t, "creature") {
        if target_entity.is_none() {
            return CastResult::InvalidTarget;
        }
    } else if str_eq(t, "room") {
        if target_pos.is_none() {
            return CastResult::InvalidTarget;
        }
    }
    CastResult::Success
}

/// A spell aimed at a tile or an area, once it is off cooldown and paid for
/// (and, for summoning imps, under the cap and its rising cost), is cast
/// exactly when its target lies within its range of the dungeon heart
/// (Manhattan distance; a range of 0 reaches everywhere): beyond the range it
/// is out of range, whichever of the two targeting types it has.
pub proof fn aimed_spells_keep_to_their_range(
    spell_id: Seq<char>,
    cost: SpellCost,
    target_type: Seq<char>,
    range: u32,
    state: GameState,
    cooldowns: Seq<String>,
    p: TilePos,
    has_target_entity: bool,
    hp: TilePos,
)
    requires
        target_type == "tile"@ || target_type == "area"@,
        !holds_str(cooldowns, spell_id),
        state.player.mana >= cost.mana,
        state.player.gold >= cost.gold,
        spell_id == "summon_imps"@ ==> count_imps_in(state.entities@) < MAX_IMPS && state.player.mana >= 10
            + count_imps_in(state.entities@) * 5,
        first_heart_pos(flat_tiles(cells(&state.dungeon.grid))) == Some(hp),
    ensures
        range > 0 && manhattan(p, hp) > range ==> cast_outcome(
            spell_id,
            cost,
            target_type,
            range,
            state,
            cooldowns,
            Some(p),
            has_target_entity,
        ) == CastResult::OutOfRange,
        !(range > 0 && manhattan(p, hp) > range) ==> cast_outcome(
            spell_id,
            cost,
            target_type,
            range,
            state,
            cooldowns,
            Some(p),
            has_target_entity,
        ) == CastResult::Success,
{
}

} // verus!
