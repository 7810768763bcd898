//! Heroes that break through the wall in their way.
use vstd::prelude::*;
use crate::tiles::{TilePos, str_eq};
use crate::world::{Dungeon, Entity, EntityType, HeroState, dungeon_wf, on_grid, tile_at};
use crate::data::{GameData, TileData};
use crate::hero_planner::{find_tile_data, first_tile_kind, lemma_first_tile_kind_unique};

verus! {

/// The kind of the tile at `pos` (the first with its id) has property `prop`:
/// the tile is on the grid and its kind is known.
pub open spec fn kind_has(d: Dungeon, tiles: Seq<TileData>, pos: TilePos, prop: spec_fn(TileData) -> bool) -> bool {
    &&& on_grid(d, pos)
    &&& exists|i: int| #[trigger] first_tile_kind(tiles, tile_at(d, pos).tile_type@, i) && prop(tiles[i])
}

/// The tile at `pos` blocks movement.
pub open spec fn blocks_at(d: Dungeon, tiles: Seq<TileData>, pos: TilePos) -> bool {
    kind_has(d, tiles, pos, |t: TileData| t.blocks_movement)
}

/// The tile at `pos` can be dug.
pub open spec fn diggable_at(d: Dungeon, tiles: Seq<TileData>, pos: TilePos) -> bool {
    kind_has(d, tiles, pos, |t: TileData| t.diggable)
}

/// The tile at `pos` is a wall of the heroes' own town.
pub open spec fn hero_wall_at(d: Dungeon, pos: TilePos) -> bool {
    on_grid(d, pos) && tile_at(d, pos).tile_type@ == "hero_wall"@
}

/// One digging step of hero `h0` (becoming `h1`) after `dt` milliseconds,
/// with result `r` (the wall it broke through, whether it may move on).
/// A hero with no next step on its path may move. The next step open: it
/// stops digging. A wall there: a hero that cannot dig, or facing a wall that
/// cannot be dug or is its town's own, drops its path; any other hero digs on,
/// and breaks through once its dig timer reaches its dig time.
pub open spec fn hero_dug(
    d: Dungeon,
    tiles: Seq<TileData>,
    h0: HeroState,
    h1: HeroState,
    dt: int,
    r: (Option<TilePos>, bool),
) -> bool {
    match h0.current_path {
        Some(path) if path@.len() > 0 => {
            let next = path@[0];
            if !blocks_at(d, tiles, next) {
                h1 == (HeroState { is_digging: false, dig_timer_ms: 0, ..h0 }) && r == (None::<TilePos>, true)
            } else if !h0.can_dig {
                h1 == (HeroState { current_path: None, ..h0 }) && r == (None::<TilePos>, true)
            } else if !diggable_at(d, tiles, next) || hero_wall_at(d, next) {
                h1 == (HeroState { current_path: None, is_digging: false, ..h0 }) && r == (
                    None::<TilePos>,
                    true,
                )
            } else {
                let t = if h0.dig_timer_ms + dt > u64::MAX { u64::MAX as int } else { h0.dig_timer_ms + dt };
                if t >= h0.max_dig_time_ms {
                    h1 == (HeroState { is_digging: false, dig_timer_ms: 0, ..h0 }) && r == (Some(next), false)
                } else {
                    h1 == (HeroState { is_digging: true, dig_timer_ms: t as u64, ..h0 }) && r == (
                        None::<TilePos>,
                        false,
                    )
                }
            }
        },
        _ => h1 == h0 && r == (None::<TilePos>, true),
    }
}

/// Whether the kind of the tile at `pos` has the property that `pick` reads:
/// `pick` false reads `blocks_movement`, true reads `diggable`.
fn tile_kind_flag(dungeon: &Dungeon, tiles: &Vec<TileData>, pos: TilePos, pick: bool) -> (r: bool)
    requires
        dungeon_wf(*dungeon),
    ensures
        !pick ==> r == blocks_at(*dungeon, tiles@, pos),
        pick ==> r == diggable_at(*dungeon, tiles@, pos),
{
    let tile = match dungeon.get_tile(pos) {
        Some(t) => t,
        None => {
            return false;
        },
    };
    let ghost t = tile.tile_type@;
    match find_tile_data(tiles, tile.tile_type.as_str()) {
        Some(i) => {
            proof {
                assert forall|k: int| #[trigger] first_tile_kind(tiles@, t, k) implies k == i by {
                    lemma_first_tile_kind_unique(tiles@, t, k, i as int);
                }
                assert(first_tile_kind(tiles@, t, i as int));
            }
            if pick {
                tiles[i].diggable
            } else {
                tiles[i].blocks_movement
            }
        },
        None => false,
    }
}

/// Whether the tile at `pos` blocks movement (see `blocks_at`).
pub fn tile_blocks_movement(dungeon: &Dungeon, pos: TilePos, game_data: &GameData) -> (r: bool)
    requires
        dungeon_wf(*dungeon),
    ensures
        r == blocks_at(*dungeon, game_data.tiles@, pos),
{
    tile_kind_flag(dungeon, &game_data.tiles, pos, false)
}

/// One digging step of a hero (see `hero_dug`).
pub fn hero_dig_step(hero: &mut HeroState, dungeon: &Dungeon, tiles: &Vec<TileData>, dt_ms: u64) -> (r: (
    Option<TilePos>,
    bool,
))
    requires
        dungeon_wf(*dungeon),
    ensures
        hero_dug(*dungeon, tiles@, *old(hero), *final(hero), dt_ms as int, r),
{
    let next = match &hero.current_path {
        Some(p) => {
            if p.len() == 0 {
                return (None, true);
            }
            p[0]
        },
        None => {
            return (None, true);
        },
    };
    let is_wall = tile_kind_flag(dungeon, tiles, next, false);
    let is_hero_wall = match dungeon.get_tile(next) {
        Some(t) => str_eq(t.tile_type.as_str(), "hero_wall"),
        None => false,
    };
    let is_diggable = tile_kind_flag(dungeon, tiles, next, true);
    if !is_wall {
        hero.is_digging = false;
        hero.dig_timer_ms = 0;
        return (None, true);
    }
    if !hero.can_dig {
        hero.current_path = None;
        return (None, true);
    }
    if !is_diggable || is_hero_wall {
        hero.current_path = None;
        hero.is_digging = false;
        return (None, true);
    }
    hero.is_digging = true;
    hero.dig_timer_ms = hero.dig_timer_ms.saturating_add(dt_ms);
    if hero.dig_timer_ms >= hero.max_dig_time_ms {
        hero.dig_timer_ms = 0;
        hero.is_digging = false;
        return (Some(next), false);
    }
    (None, false)
}

/// The index of the first entity with id `id`.
pub open spec fn first_with_id(es: Seq<Entity>, id: u64, i: int) -> bool {
    0 <= i < es.len() && es[i].id == id && forall|j: int| 0 <= j < i ==> (#[trigger] es[j]).id != id
}

/// Where the hero with id `id` stands among `es`: the first entity with that
/// id, if it is a hero.
pub open spec fn hero_slot(es: Seq<Entity>, id: u64) -> Option<int> {
    if exists|k: int| first_with_id(es, id, k) {
        let k = choose|k: int| first_with_id(es, id, k);
        if es[k].entity_type is Hero {
            Some(k)
        } else {
            None
        }
    } else {
        None
    }
}

impl Entity {
    /// One digging step of this entity, if it is a hero (see `hero_dug`).
    pub fn dig_as_hero(&mut self, dungeon: &Dungeon, tiles: &Vec<TileData>, dt_ms: u64) -> (r: (
        Option<TilePos>,
        bool,
    ))
        requires
            dungeon_wf(*dungeon),
        ensures
            match (old(self).entity_type, final(self).entity_type) {
                (EntityType::Hero(h0), EntityType::Hero(h1)) => {
                    &&& hero_dug(*dungeon, tiles@, h0, h1, dt_ms as int, r)
                    &&& *final(self) == (Entity { entity_type: EntityType::Hero(h1), ..*old(self) })
                },
                _ => *final(self) == *old(self) && r == (None::<TilePos>, true),
            },
    {
        match &mut self.entity_type {
            EntityType::Hero(h) => hero_dig_step(h, dungeon, tiles, dt_ms),
            _ => (None, true),
        }
    }
}

/// One digging step of the hero with id `hero_id` (the first entity with that
/// id) after `dt_ms` milliseconds (see `hero_dug`): the wall it broke through,
/// and whether it may move on. No such hero may move and nothing changes.
pub fn process_hero_digging(
    entities: &mut Vec<Entity>,
    dungeon: &Dungeon,
    game_data: &GameData,
    hero_id: u64,
    dt_ms: u64,
) -> (r: (Option<TilePos>, bool))
    requires
        dungeon_wf(*dungeon),
    ensures
        match hero_slot(old(entities)@, hero_id) {
            Some(i) => {
                &&& final(entities)@.len() == old(entities)@.len()
                &&& forall|j: int|
                    0 <= j < old(entities)@.len() && j != i ==> #[trigger] final(entities)@[j] == old(entities)@[j]
                &&& match (old(entities)@[i].entity_type, final(entities)@[i].entity_type) {
                    (EntityType::Hero(h0), EntityType::Hero(h1)) => {
                        &&& hero_dug(*dungeon, game_data.tiles@, h0, h1, dt_ms as int, r)
                        &&& final(entities)@[i] == (Entity { entity_type: EntityType::Hero(h1), ..old(entities)@[i] })
                    },
                    _ => false,
                }
            },
            None => *final(entities) == *old(entities) && r == (None::<TilePos>, true),
        },
{
    let mut i: usize = 0;
    while i < entities.len()
        invariant
            *entities == *old(entities),
            dungeon_wf(*dungeon),
            i <= entities@.len(),
            forall|j: int| 0 <= j < i ==> (#[trigger] entities@[j]).id != hero_id,
        decreases entities@.len() - i,
    {
        if entities[i].id == hero_id {
            proof {
                assert(first_with_id(entities@, hero_id, i as int));
                let c = choose|k: int| first_with_id(entities@, hero_id, k);
                if c < i {
                    assert(entities@[c].id != hero_id);
                }
                if i < c {
                    assert(entities@[i as int].id != hero_id);
                }
                assert(c == i);
            }
            let is_hero = match &entities[i].entity_type {
                EntityType::Hero(_) => true,
                _ => false,
            };
            if !is_hero {
                assert(hero_slot(entities@, hero_id) is None);
                assert(hero_slot(old(entities)@, hero_id) is None);
                return (None, true);
            }
            assert(hero_slot(entities@, hero_id) == Some(i as int));
            let ghost before = entities@;
            let r = entities[i].dig_as_hero(dungeon, &game_data.tiles, dt_ms);
            proof {
                assert forall|j: int| 0 <= j < before.len() && j != i implies #[trigger] entities@[j] == before[j] by {}
            }
            return r;
        }
        i = i + 1;
    }
    proof {
        assert(!exists|k: int| first_with_id(entities@, hero_id, k));
    }
    (None, true)
}

} // verus!
