//! A hero's planning step: keeping or changing its goal, choosing where to
//! go, and what to do with the path that the caller's pathfinder finds.
use vstd::prelude::*;
use crate::tiles::{TilePos, str_eq};
use crate::grid::cells;
use crate::world::{GameState, HeroState, Room, Dungeon, dungeon_wf, on_grid, tile_at, flat_tiles, first_heart_pos};
use crate::data::{GameData, TileData};
use crate::hero_ai::{
    HeroGoal, HeroGoalProfile, ThreatLevel, hero_goal, threat_for, count_near, count_strong_near,
    has_room_of_type, decide_hero_goal, evaluate_threat, find_nearby_gold_pile, find_target_room,
    nearest_gold, visible_gold, room_by_type_result, priority_room_result, creature_room_result,
    unexplored_room_choice, entrance_room_result, rooms_measurable,
};
use crate::random::{random_below, random_index, first_try, offsets_in, lemma_first_try_skip, cell_pos, try_pos};
use crate::tiles::TileState;
use crate::pathfinding::{leads, walk_grid_wf, walkable_in};
use crate::cheapest_path::{find_cheapest_path, cheapest_walk};
use crate::connectivity::{flags, cell_of};
use crate::paths::reachable;

verus! {

/// The parts of a hero's state that planning changes: its goal, the spot and
/// room it heads for, and its path.
pub struct HeroView {
    pub goal: HeroGoal,
    pub target_pos: Option<TilePos>,
    pub target_room: Option<usize>,
    pub path: Option<Seq<TilePos>>,
}

/// The contents of an optional path.
pub open spec fn path_view(p: Option<Vec<TilePos>>) -> Option<Seq<TilePos>> {
    match p {
        Some(v) => Some(v@),
        None => None,
    }
}

/// The planning parts of a hero's state.
pub open spec fn hero_view(h: HeroState) -> HeroView {
    HeroView { goal: h.current_goal, target_pos: h.target_pos, target_room: h.target_room_id, path: path_view(h.current_path) }
}

/// `b` agrees with `a` in everything but the planning parts.
pub open spec fn same_but_plan(a: HeroState, b: HeroState) -> bool {
    b == HeroState {
        current_goal: b.current_goal,
        target_pos: b.target_pos,
        target_room_id: b.target_room_id,
        current_path: b.current_path,
        ..a
    }
}

/// A fresh plan for the goal `g`: no target, no room, no path.
pub open spec fn fresh_plan(g: HeroGoal) -> HeroView {
    HeroView { goal: g, target_pos: None, target_room: None, path: None }
}

/// The plan after the goal is reconsidered: a defender always rests at its
/// spawn; any other hero that is neither resting nor attacking the heart and
/// has lost its path takes the goal it would `decide` on now. A changed goal
/// starts a fresh plan.
pub open spec fn reconsidered(v: HeroView, is_defender: bool, spawn: TilePos, decided: HeroGoal) -> HeroView {
    if is_defender {
        if v.goal is RestAtSpawn {
            v
        } else {
            fresh_plan(HeroGoal::RestAtSpawn(spawn))
        }
    } else if !(v.goal is RestAtSpawn) && !(v.goal is DestroyHeart) && v.path is None && decided != v.goal {
        fresh_plan(decided)
    } else {
        v
    }
}

/// `i` is the first tile kind with the id `t`.
pub open spec fn first_tile_kind(tiles: Seq<TileData>, t: Seq<char>, i: int) -> bool {
    &&& 0 <= i < tiles.len()
    &&& tiles[i].id@ == t
    &&& forall|j: int| 0 <= j < i ==> (#[trigger] tiles[j]).id@ != t
}

/// A hero can walk onto `pos`: it lies on the map, and its tile does not
/// block movement (a tile of unknown kind blocks only as a wall or entrance
/// of the heroes' town).
pub open spec fn hero_walkable(d: Dungeon, tiles: Seq<TileData>, pos: TilePos) -> bool {
    &&& on_grid(d, pos)
    &&& {
        let t = tile_at(d, pos).tile_type@;
        if exists|i: int| first_tile_kind(tiles, t, i) {
            !tiles[choose|i: int| first_tile_kind(tiles, t, i)].blocks_movement
        } else {
            t != "hero_wall"@ && t != "hero_gate"@
        }
    }
}

/// There is at most one first tile kind with a given id.
pub(crate) proof fn lemma_first_tile_kind_unique(tiles: Seq<TileData>, t: Seq<char>, i: int, j: int)
    requires
        first_tile_kind(tiles, t, i),
        first_tile_kind(tiles, t, j),
    ensures
        i == j,
{
    if i < j {
        assert(tiles[i].id@ != t);
    }
    if j < i {
        assert(tiles[j].id@ != t);
    }
}

/// The index of the first tile kind with the id `t`, if there is one.
pub(crate) fn find_tile_data(tiles: &Vec<TileData>, t: &str) -> (r: Option<usize>)
    ensures
        match r {
            Some(i) => first_tile_kind(tiles@, t@, i as int),
            None => forall|j: int| 0 <= j < tiles@.len() ==> (#[trigger] tiles@[j]).id@ != t@,
        },
{
    let mut i: usize = 0;
    while i < tiles.len()
        invariant
            i <= tiles@.len(),
            forall|j: int| 0 <= j < i ==> (#[trigger] tiles@[j]).id@ != t@,
        decreases tiles@.len() - i,
    {
        if str_eq(tiles[i].id.as_str(), t) {
            return Some(i);
        }
        i = i + 1;
    }
    None
}

/// Whether a hero can walk onto `pos` (see `hero_walkable`).
pub fn is_tile_walkable_for_hero(pos: TilePos, game_state: &GameState, game_data: &GameData) -> (r: bool)
    requires
        dungeon_wf(game_state.dungeon),
    ensures
        r == hero_walkable(game_state.dungeon, game_data.tiles@, pos),
{
    let tile = match game_state.dungeon.get_tile(pos) {
        Some(t) => t,
        None => {
            return false;
        },
    };
    let ghost t = tile.tile_type@;
    match find_tile_data(&game_data.tiles, tile.tile_type.as_str()) {
        Some(i) => {
            proof {
                let c = choose|k: int| first_tile_kind(game_data.tiles@, t, k);
                lemma_first_tile_kind_unique(game_data.tiles@, t, c, i as int);
            }
            !game_data.tiles[i].blocks_movement
        },
        None => {
            proof {
                assert(!exists|k: int| first_tile_kind(game_data.tiles@, t, k));
            }
            !(str_eq(tile.tile_type.as_str(), "hero_wall") || str_eq(tile.tile_type.as_str(), "hero_gate"))
        },
    }
}

/// `t` lies within `radius` (a square) of `center`, is not `pos`, and a hero
/// can walk onto it.
pub open spec fn wander_spot(center: TilePos, radius: int, pos: TilePos, d: Dungeon, tiles: Seq<TileData>, t: TilePos) -> bool {
    &&& center.x - radius <= t.x <= center.x + radius
    &&& center.y - radius <= t.y <= center.y + radius
    &&& t != pos
    &&& hero_walkable(d, tiles, t)
}

/// A spot with coordinates that stay in range within `radius` of it.
pub open spec fn roomy(p: TilePos, radius: int) -> bool {
    i32::MIN + radius <= p.x <= i32::MAX - radius && i32::MIN + radius <= p.y <= i32::MAX - radius
}

/// A random offset in `-radius..=radius`.
fn random_offset(radius: i32) -> (r: i32)
    requires
        0 <= radius <= 1000,
    ensures
        -radius <= r <= radius,
{
    let draw = random_below((2 * radius + 1) as u32);
    draw as i32 - radius
}

/// A spot a hero at `pos` may wander to: not where it stands, and walkable.
pub open spec fn hero_wander_hit(pos: TilePos, d: Dungeon, tiles: Seq<TileData>) -> spec_fn((int, int)) -> bool {
    |c: (int, int)| cell_pos(c) != pos && hero_walkable(d, tiles, cell_pos(c))
}

/// No spot ends the tries early.
pub open spec fn no_stop() -> spec_fn((int, int)) -> bool {
    |c: (int, int)| false
}

/// Up to ten random tries for a spot a hero can walk onto within 5 of its
/// spawn (other than where it stands): the first of ten offsets drawn in
/// `-5..=5` that hits.
pub fn find_wander_target(spawn_pos: TilePos, current_pos: TilePos, game_state: &GameState, game_data: &GameData) -> (r: Option<TilePos>)
    requires
        dungeon_wf(game_state.dungeon),
        roomy(spawn_pos, 5),
    ensures
        r is Some ==> wander_spot(spawn_pos, 5, current_pos, game_state.dungeon, game_data.tiles@, r->0),
        exists|offs: Seq<(int, int)>|
            {
                &&& offs.len() == 10
                &&& offsets_in(offs, -5, 5)
                &&& r == try_pos(#[trigger] first_try(
                    (spawn_pos.x as int, spawn_pos.y as int),
                    offs,
                    hero_wander_hit(current_pos, game_state.dungeon, game_data.tiles@),
                    no_stop(),
                ))
            },
{
    let ghost center = (spawn_pos.x as int, spawn_pos.y as int);
    let ghost hit = hero_wander_hit(current_pos, game_state.dungeon, game_data.tiles@);
    let ghost mut tried: Seq<(int, int)> = Seq::empty();
    let radius: i32 = 5;
    let mut attempt: u32 = 0;
    while attempt < 10
        invariant
            dungeon_wf(game_state.dungeon),
            roomy(spawn_pos, 5),
            radius == 5,
            attempt <= 10,
            center == (spawn_pos.x as int, spawn_pos.y as int),
            hit == hero_wander_hit(current_pos, game_state.dungeon, game_data.tiles@),
            tried.len() == attempt,
            offsets_in(tried, -5, 5),
            forall|k: int|
                0 <= k < tried.len() ==> !no_stop()((center.0 + (#[trigger] tried[k]).0, center.1 + tried[k].1)) && !hit(
                    (center.0 + tried[k].0, center.1 + tried[k].1),
                ),
        decreases 10 - attempt,
    {
        let dx = random_offset(radius);
        let dy = random_offset(radius);
        let target = TilePos::new(spawn_pos.x + dx, spawn_pos.y + dy);
        let ghost c = (center.0 + dx, center.1 + dy);
        assert(cell_pos(c) == target);
        attempt = attempt + 1;
        if target != current_pos && is_tile_walkable_for_hero(target, game_state, game_data) {
            proof {
                let rest = seq![(dx as int, dy as int)] + Seq::new((10 - attempt) as nat, |i: int| (0int, 0int));
                lemma_first_try_skip(center, tried, rest, hit, no_stop());
                assert(rest[0] == (dx as int, dy as int));
                assert(hit(c));
                let offs = tried + rest;
                assert(offsets_in(offs, -5, 5)) by {
                    assert forall|k: int| 0 <= k < offs.len() implies -5 <= (#[trigger] offs[k]).0 <= 5 && -5 <= offs[k].1 <= 5 by {
                        if k < tried.len() {
                            assert(offs[k] == tried[k]);
                        } else {
                            assert(offs[k] == rest[k - tried.len()]);
                        }
                    }
                }
                assert(first_try(center, offs, hit, no_stop()) == Some(c));
            }
            return Some(target);
        }
        proof {
            let t0 = tried;
            tried = tried.push((dx as int, dy as int));
            assert forall|k: int|
                0 <= k < tried.len() implies !no_stop()((center.0 + (#[trigger] tried[k]).0, center.1 + tried[k].1)) && !hit(
                    (center.0 + tried[k].0, center.1 + tried[k].1),
                ) by {
                if k < t0.len() {
                    assert(tried[k] == t0[k]);
                }
            }
        }
    }
    proof {
        lemma_first_try_skip(center, tried, Seq::empty(), hit, no_stop());
        assert(tried + Seq::<(int, int)>::empty() =~= tried);
    }
    None
}

/// Up to ten random tries for a spot on the map within 3 of `current_pos`
/// (other than it) that is not a wall of the heroes' town.
pub fn find_emergency_wander_target(current_pos: TilePos, game_state: &GameState) -> (r: Option<TilePos>)
    requires
        dungeon_wf(game_state.dungeon),
        roomy(current_pos, 3),
    ensures
        r is Some ==> {
            let t = r->0;
            &&& current_pos.x - 3 <= t.x <= current_pos.x + 3
            &&& current_pos.y - 3 <= t.y <= current_pos.y + 3
            &&& t != current_pos
            &&& on_grid(game_state.dungeon, t)
            &&& tile_at(game_state.dungeon, t).tile_type@ != "hero_wall"@
        },
        exists|offs: Seq<(int, int)>|
            {
                &&& offs.len() == 10
                &&& offsets_in(offs, -3, 3)
                &&& r == try_pos(#[trigger] first_try(
                    (current_pos.x as int, current_pos.y as int),
                    offs,
                    emergency_hit(current_pos, game_state.dungeon),
                    no_stop(),
                ))
            },
{
    let ghost center = (current_pos.x as int, current_pos.y as int);
    let ghost hit = emergency_hit(current_pos, game_state.dungeon);
    let ghost mut tried: Seq<(int, int)> = Seq::empty();
    let radius: i32 = 3;
    let mut attempt: u32 = 0;
    while attempt < 10
        invariant
            dungeon_wf(game_state.dungeon),
            roomy(current_pos, 3),
            radius == 3,
            attempt <= 10,
            center == (current_pos.x as int, current_pos.y as int),
            hit == emergency_hit(current_pos, game_state.dungeon),
            tried.len() == attempt,
            offsets_in(tried, -3, 3),
            forall|k: int|
                0 <= k < tried.len() ==> !no_stop()((center.0 + (#[trigger] tried[k]).0, center.1 + tried[k].1)) && !hit(
                    (center.0 + tried[k].0, center.1 + tried[k].1),
                ),
        decreases 10 - attempt,
    {
        let dx = random_offset(radius);
        let dy = random_offset(radius);
        let n_pos = TilePos::new(current_pos.x + dx, current_pos.y + dy);
        let ghost c = (center.0 + dx, center.1 + dy);
        assert(cell_pos(c) == n_pos);
        attempt = attempt + 1;
        let ok = if n_pos != current_pos {
            match game_state.dungeon.get_tile(n_pos) {
                Some(tile) => !str_eq(tile.tile_type.as_str(), "hero_wall"),
                None => false,
            }
        } else {
            false
        };
        assert(ok == hit(c));
        if ok {
            proof {
                let rest = seq![(dx as int, dy as int)] + Seq::new((10 - attempt) as nat, |i: int| (0int, 0int));
                lemma_first_try_skip(center, tried, rest, hit, no_stop());
                assert(rest[0] == (dx as int, dy as int));
                let offs = tried + rest;
                assert(offsets_in(offs, -3, 3)) by {
                    assert forall|k: int| 0 <= k < offs.len() implies -3 <= (#[trigger] offs[k]).0 <= 3 && -3 <= offs[k].1 <= 3 by {
                        if k < tried.len() {
                            assert(offs[k] == tried[k]);
                        } else {
                            assert(offs[k] == rest[k - tried.len()]);
                        }
                    }
                }
                assert(first_try(center, offs, hit, no_stop()) == Some(c));
            }
            return Some(n_pos);
        }
        proof {
            let t0 = tried;
            tried = tried.push((dx as int, dy as int));
            assert forall|k: int|
                0 <= k < tried.len() implies !no_stop()((center.0 + (#[trigger] tried[k]).0, center.1 + tried[k].1)) && !hit(
                    (center.0 + tried[k].0, center.1 + tried[k].1),
                ) by {
                if k < t0.len() {
                    assert(tried[k] == t0[k]);
                }
            }
        }
    }
    proof {
        lemma_first_try_skip(center, tried, Seq::empty(), hit, no_stop());
        assert(tried + Seq::<(int, int)>::empty() =~= tried);
    }
    None
}

/// A spot a hero at `pos` may flee to: not where it stands, on the map, and
/// not a wall of the heroes' town.
pub open spec fn emergency_hit(pos: TilePos, d: Dungeon) -> spec_fn((int, int)) -> bool {
    |c: (int, int)| cell_pos(c) != pos && on_grid(d, cell_pos(c)) && tile_at(d, cell_pos(c)).tile_type@ != "hero_wall"@
}

/// The room a hero heads for with the goal `g` (the relation that
/// `find_target_room` guarantees of its result `r`).
pub open spec fn room_choice(g: HeroGoal, treasury_priority_positive: bool, pos: TilePos, s: GameState, r: Option<usize>) -> bool {
    match g {
        HeroGoal::DestroyHeart => room_by_type_result(s.rooms@, "dungeon_heart"@, r),
        HeroGoal::StealGold(_) => priority_room_result(s.rooms@, treasury_priority_positive, "treasury"@, pos, r),
        HeroGoal::KillCreatures(_) => creature_room_result(s.rooms@, seq!["lair"@, "training_hall"@], pos, r),
        HeroGoal::SabotageRoom(room_id) => r == Some(room_id),
        HeroGoal::Explore => unexplored_room_choice(s.dungeon, s.rooms@, r),
        HeroGoal::RestAtSpawn(_) => r is None,
        HeroGoal::Retreat => entrance_room_result(s.rooms@, r),
    }
}

/// Some gold pile is in sight of a hero at `pos`.
pub open spec fn gold_in_sight(s: GameState, pos: TilePos) -> bool {
    exists|j: int| 0 <= j < s.entities@.len() && visible_gold(#[trigger] s.entities@[j], pos)
}

/// `t` is where the nearest gold pile in sight lies.
pub open spec fn nearest_gold_at(s: GameState, pos: TilePos, t: TilePos) -> bool {
    exists|i: int| nearest_gold(s.entities@, pos, i) && (#[trigger] s.entities@[i]).pos == t
}

/// How the plan `v1` of a hero at `pos` is given a target (`v2`). A resting
/// hero without a target, or standing on it, may be sent to a random spot
/// near its spawn. A thief without a target goes for the nearest gold pile
/// in sight, else (with no room chosen) for a treasury. Any other hero with
/// neither target nor room picks the room for its goal; an attacker that
/// finds no heart room heads for the heart tile.
pub open spec fn targeted(v1: HeroView, v2: HeroView, pos: TilePos, treasury_priority_positive: bool, s: GameState, tiles: Seq<TileData>) -> bool {
    match v1.goal {
        HeroGoal::RestAtSpawn(sp) => if v1.target_pos is None || v1.target_pos == Some(pos) {
            ||| v2 == v1
            ||| {
                &&& v2 == HeroView { target_pos: v2.target_pos, path: None, ..v1 }
                &&& v2.target_pos is Some
                &&& wander_spot(sp, 5, pos, s.dungeon, tiles, v2.target_pos->0)
            }
        } else {
            v2 == v1
        },
        HeroGoal::StealGold(_) => if v1.target_pos is Some {
            v2 == v1
        } else if gold_in_sight(s, pos) {
            &&& v2 == HeroView { target_pos: v2.target_pos, target_room: None, ..v1 }
            &&& v2.target_pos is Some
            &&& nearest_gold_at(s, pos, v2.target_pos->0)
        } else if v1.target_room is None {
            &&& v2 == HeroView { target_room: v2.target_room, ..v1 }
            &&& room_choice(v1.goal, treasury_priority_positive, pos, s, v2.target_room)
        } else {
            v2 == v1
        },
        _ => if v1.target_room is None && v1.target_pos is None {
            &&& v2 == HeroView { target_room: v2.target_room, target_pos: v2.target_pos, ..v1 }
            &&& room_choice(v1.goal, treasury_priority_positive, pos, s, v2.target_room)
            &&& v2.target_pos == if v2.target_room is None && v1.goal is DestroyHeart {
                first_heart_pos(flat_tiles(cells(&s.dungeon.grid)))
            } else {
                None
            }
        } else {
            v2 == v1
        },
    }
}

/// `i` is the first room with the id `id`.
pub open spec fn first_room_with_id(rooms: Seq<Room>, id: usize, i: int) -> bool {
    &&& 0 <= i < rooms.len()
    &&& rooms[i].id == id
    &&& forall|j: int| 0 <= j < i ==> (#[trigger] rooms[j]).id != id
}

/// How a chosen room becomes a target spot (`v3` from `v2`): a hero with a
/// room and no target spot heads for a random tile of the first room with
/// that id (when it has tiles).
pub open spec fn resolved(v2: HeroView, v3: HeroView, rooms: Seq<Room>) -> bool {
    if v2.target_pos is None && v2.target_room is Some && exists|i: int|
        first_room_with_id(rooms, v2.target_room->0, i) && rooms[i].tiles@.len() > 0 {
        let i = choose|i: int| first_room_with_id(rooms, v2.target_room->0, i) && rooms[i].tiles@.len() > 0;
        &&& v3 == HeroView { target_pos: v3.target_pos, ..v2 }
        &&& v3.target_pos is Some
        &&& rooms[i].tiles@.contains(v3.target_pos->0)
    } else {
        v3 == v2
    }
}

/// A hero standing on its target has arrived: target, room and path are
/// cleared.
pub open spec fn arrived(v: HeroView, pos: TilePos) -> HeroView {
    if v.target_pos == Some(pos) {
        HeroView { target_pos: None, target_room: None, path: None, ..v }
    } else {
        v
    }
}

/// The spot a path must be found to: the target, when the hero has one it
/// does not stand on and no path.
pub open spec fn path_request(v: HeroView, pos: TilePos) -> Option<TilePos> {
    match v.target_pos {
        Some(t) => if v.path is None && t != pos {
            Some(t)
        } else {
            None
        },
        None => None,
    }
}

/// The goal that the hero would decide on now (see `decide_hero_goal`).
pub open spec fn decided_goal(
    h: HeroState,
    pos: TilePos,
    profile: Option<HeroGoalProfile>,
    retreating: bool,
    s: GameState,
) -> HeroGoal {
    hero_goal(
        threat_for(count_near(s.entities@, pos) as int, count_strong_near(s.entities@, pos) as int),
        has_room_of_type(s.rooms@, "dungeon_heart"@),
        h.gold_stolen,
        h.kills,
        profile,
        retreating,
    )
}

/// Reconsider the hero's goal (see `reconsidered`).
fn reconsider_goal(
    hero_pos: TilePos,
    hero_state: &mut HeroState,
    profile: Option<&HeroGoalProfile>,
    retreating: bool,
    game_state: &GameState,
)
    ensures
        same_but_plan(*old(hero_state), *final(hero_state)),
        hero_view(*final(hero_state)) == reconsidered(
            hero_view(*old(hero_state)),
            old(hero_state).is_defender,
            old(hero_state).spawn_pos,
            decided_goal(
                *old(hero_state),
                hero_pos,
                match profile {
                    Some(p) => Some(*p),
                    None => None,
                },
                retreating,
                *game_state,
            ),
        ),
{
    if hero_state.is_defender {
        let resting = match hero_state.current_goal {
            HeroGoal::RestAtSpawn(_) => true,
            _ => false,
        };
        if !resting {
            hero_state.current_goal = HeroGoal::RestAtSpawn(hero_state.spawn_pos);
            hero_state.target_pos = None;
            hero_state.target_room_id = None;
            hero_state.current_path = None;
        }
    } else {
        let should_reevaluate = match hero_state.current_goal {
            HeroGoal::RestAtSpawn(_) => false,
            HeroGoal::DestroyHeart => false,
            _ => hero_state.current_path.is_none(),
        };
        if should_reevaluate {
            let new_goal = decide_hero_goal(
                hero_pos,
                hero_state.gold_stolen,
                hero_state.kills,
                profile,
                retreating,
                game_state,
            );
            if new_goal != hero_state.current_goal {
                hero_state.current_goal = new_goal;
                hero_state.target_pos = None;
                hero_state.target_room_id = None;
                hero_state.current_path = None;
            }
        }
    }
}

/// Give the hero's plan a target (see `targeted`).
fn update_target(
    hero_pos: TilePos,
    hero_state: &mut HeroState,
    treasury_priority_positive: bool,
    game_state: &GameState,
    game_data: &GameData,
)
    requires
        dungeon_wf(game_state.dungeon),
        rooms_measurable(game_state.rooms@),
        old(hero_state).current_goal matches HeroGoal::RestAtSpawn(sp) ==> roomy(sp, 5),
    ensures
        same_but_plan(*old(hero_state), *final(hero_state)),
        targeted(
            hero_view(*old(hero_state)),
            hero_view(*final(hero_state)),
            hero_pos,
            treasury_priority_positive,
            *game_state,
            game_data.tiles@,
        ),
{
    match hero_state.current_goal {
        HeroGoal::RestAtSpawn(spawn_pos) => {
            let needs_new_target = hero_state.target_pos.is_none() || hero_state.target_pos == Some(hero_pos);
            if needs_new_target {
                match find_wander_target(spawn_pos, hero_pos, game_state, game_data) {
                    Some(target) => {
                        hero_state.target_pos = Some(target);
                        hero_state.current_path = None;
                    },
                    None => {},
                }
            }
        },
        HeroGoal::StealGold(_) => {
            let mut found_pile = false;
            if hero_state.target_pos.is_none() {
                match find_nearby_gold_pile(hero_pos, game_state) {
                    Some(pile_pos) => {
                        hero_state.target_pos = Some(pile_pos);
                        hero_state.target_room_id = None;
                        found_pile = true;
                    },
                    None => {},
                }
            }
            if !found_pile && hero_state.target_room_id.is_none() && hero_state.target_pos.is_none() {
                hero_state.target_room_id = find_target_room(
                    hero_pos,
                    hero_state.current_goal,
                    treasury_priority_positive,
                    game_state,
                );
            }
        },
        _ => {
            if hero_state.target_room_id.is_none() && hero_state.target_pos.is_none() {
                hero_state.target_room_id = find_target_room(
                    hero_pos,
                    hero_state.current_goal,
                    treasury_priority_positive,
                    game_state,
                );
                let attacking = match hero_state.current_goal {
                    HeroGoal::DestroyHeart => true,
                    _ => false,
                };
                if hero_state.target_room_id.is_none() && attacking {
                    match game_state.find_dungeon_heart_position() {
                        Some(heart_pos) => {
                            hero_state.target_pos = Some(heart_pos);
                        },
                        None => {},
                    }
                }
            }
        },
    }
}

/// Turn the hero's chosen room into a target spot (see `resolved`).
fn resolve_room_target(hero_state: &mut HeroState, game_state: &GameState)
    ensures
        same_but_plan(*old(hero_state), *final(hero_state)),
        resolved(hero_view(*old(hero_state)), hero_view(*final(hero_state)), game_state.rooms@),
{
    let room_id = match hero_state.target_room_id {
        Some(id) => id,
        None => {
            return;
        },
    };
    if hero_state.target_pos.is_some() {
        return;
    }
    let mut k: usize = 0;
    while k < game_state.rooms.len() && game_state.rooms[k].id != room_id
        invariant
            k <= game_state.rooms@.len(),
            forall|j: int| 0 <= j < k ==> (#[trigger] game_state.rooms@[j]).id != room_id,
        decreases game_state.rooms@.len() - k,
    {
        k = k + 1;
    }
    if k == game_state.rooms.len() {
        proof {
            assert forall|i: int| !first_room_with_id(game_state.rooms@, room_id, i) by {
                if first_room_with_id(game_state.rooms@, room_id, i) {
                    assert(game_state.rooms@[i].id != room_id);
                }
            }
        }
        return;
    }
    let room: &Room = &game_state.rooms[k];
    proof {
        assert(first_room_with_id(game_state.rooms@, room_id, k as int));
        assert forall|i: int| first_room_with_id(game_state.rooms@, room_id, i) implies i == k by {
            if i < k {
                assert(game_state.rooms@[i].id != room_id);
            }
            if k < i {
                assert(game_state.rooms@[k as int].id != room_id);
            }
        }
    }
    let n = room.tiles.len();
    if n == 0 {
        return;
    }
    let idx = random_index(n);
    let pos = room.tiles[idx];
    hero_state.target_pos = Some(pos);
    assert(room.tiles@[idx as int] == pos);
}

/// A hero's goal is never to rest: resting is only for defenders.
proof fn lemma_secondary_never_rests(names: Seq<String>, gold_stolen: i32, kills: u32, tier: u32)
    ensures
        !(crate::hero_ai::secondary_goal(names, gold_stolen, kills, tier) is RestAtSpawn),
    decreases names.len(),
{
    if names.len() > 0 {
        lemma_secondary_never_rests(names.drop_first(), gold_stolen, kills, tier);
    }
}

/// The decided goal is never to rest.
proof fn lemma_decided_never_rests(h: HeroState, pos: TilePos, profile: Option<HeroGoalProfile>, retreating: bool, s: GameState)
    ensures
        !(decided_goal(h, pos, profile, retreating, s) is RestAtSpawn),
{
    match profile {
        Some(p) => lemma_secondary_never_rests(p.secondary_goals@, h.gold_stolen, h.kills, p.tier),
        None => {},
    }
}

/// The two middle steps of planning: a target is chosen (`v2`), and a
/// chosen room is turned into a target spot (`v3`).
pub open spec fn plan_steps(
    v1: HeroView,
    v2: HeroView,
    v3: HeroView,
    pos: TilePos,
    treasury_priority_positive: bool,
    s: GameState,
    tiles: Seq<TileData>,
) -> bool {
    &&& targeted(v1, v2, pos, treasury_priority_positive, s, tiles)
    &&& resolved(v2, v3, s.rooms@)
}

/// One planning step of a hero at `pos`: its goal is reconsidered, a target
/// is chosen, a chosen room becomes a target spot, and a hero standing on its
/// target has arrived.
pub open spec fn planned(
    v0: HeroView,
    v4: HeroView,
    pos: TilePos,
    is_defender: bool,
    spawn: TilePos,
    decided: HeroGoal,
    treasury_priority_positive: bool,
    s: GameState,
    tiles: Seq<TileData>,
) -> bool {
    exists|v2: HeroView, v3: HeroView|
        #[trigger] plan_steps(reconsidered(v0, is_defender, spawn, decided), v2, v3, pos, treasury_priority_positive, s, tiles)
            && v4 == arrived(v3, pos)
}

/// Plan a hero's next move: reconsider its goal (`profile` is its data, none
/// when the hero is unknown; `retreating` says whether its health fell below
/// its nerve; `treasury_priority_positive` whether it values treasuries),
/// choose where to go, and clear a target it stands on. Returns the spot a
/// path must now be found to, if any.
pub fn update_hero_ai(
    hero_pos: TilePos,
    hero_state: &mut HeroState,
    profile: Option<&HeroGoalProfile>,
    treasury_priority_positive: bool,
    retreating: bool,
    game_state: &GameState,
    game_data: &GameData,
) -> (path_to: Option<TilePos>)
    requires
        dungeon_wf(game_state.dungeon),
        rooms_measurable(game_state.rooms@),
        roomy(old(hero_state).spawn_pos, 5),
        old(hero_state).current_goal matches HeroGoal::RestAtSpawn(sp) ==> roomy(sp, 5),
    ensures
        same_but_plan(*old(hero_state), *final(hero_state)),
        planned(
            hero_view(*old(hero_state)),
            hero_view(*final(hero_state)),
            hero_pos,
            old(hero_state).is_defender,
            old(hero_state).spawn_pos,
            decided_goal(
                *old(hero_state),
                hero_pos,
                match profile {
                    Some(p) => Some(*p),
                    None => None,
                },
                retreating,
                *game_state,
            ),
            treasury_priority_positive,
            *game_state,
            game_data.tiles@,
        ),
        path_to == path_request(hero_view(*final(hero_state)), hero_pos),
{
    let ghost h0 = *hero_state;
    let ghost prof = match profile {
        Some(p) => Some(*p),
        None => None,
    };
    proof {
        lemma_decided_never_rests(h0, hero_pos, prof, retreating, *game_state);
    }
    reconsider_goal(hero_pos, hero_state, profile, retreating, game_state);
    let ghost v1 = hero_view(*hero_state);
    update_target(hero_pos, hero_state, treasury_priority_positive, game_state, game_data);
    let ghost v2 = hero_view(*hero_state);
    resolve_room_target(hero_state, game_state);
    let ghost v3 = hero_view(*hero_state);
    match hero_state.target_pos {
        Some(target) => {
            if target == hero_pos {
                hero_state.target_pos = None;
                hero_state.target_room_id = None;
                hero_state.current_path = None;
            }
        },
        None => {},
    }
    proof {
        assert(plan_steps(v1, v2, v3, hero_pos, treasury_priority_positive, *game_state, game_data.tiles@));
        assert(hero_view(*hero_state) == arrived(v3, hero_pos));
    }
    match hero_state.target_pos {
        Some(t) => {
            if hero_state.current_path.is_none() && t != hero_pos {
                Some(t)
            } else {
                None
            }
        },
        None => None,
    }
}

/// What taking the pathfinder's answer `path` does to a hero at `pos`: a path
/// found becomes its path; with none, a digging attacker of the heart may
/// head for a spot nearby instead, and any other hero is left as it was.
pub open spec fn path_applied(a: HeroState, b: HeroState, pos: TilePos, path: Option<Seq<TilePos>>, d: Dungeon) -> bool {
    &&& same_but_plan(a, b)
    &&& b.current_goal == a.current_goal
    &&& b.target_room_id == a.target_room_id
    &&& path is Some ==> path_view(b.current_path) == path && b.target_pos == a.target_pos
    &&& path is None && !(a.can_dig && a.current_goal is DestroyHeart) ==> b == a
    &&& path is None && a.can_dig && a.current_goal is DestroyHeart ==> {
        ||| b == a
        ||| {
            let t = b.target_pos->0;
            &&& b.target_pos is Some
            &&& b.current_path is None
            &&& pos.x - 3 <= t.x <= pos.x + 3
            &&& pos.y - 3 <= t.y <= pos.y + 3
            &&& t != pos
            &&& on_grid(d, t)
            &&& tile_at(d, t).tile_type@ != "hero_wall"@
        }
    }
}

/// Take the path the caller's pathfinder found to the hero's target. When
/// none was found, a digging attacker of the heart tries a random spot
/// nearby instead.
pub fn apply_path_result(hero_pos: TilePos, hero_state: &mut HeroState, path: Option<Vec<TilePos>>, game_state: &GameState)
    requires
        dungeon_wf(game_state.dungeon),
        roomy(hero_pos, 3),
    ensures
        same_but_plan(*old(hero_state), *final(hero_state)),
        final(hero_state).current_goal == old(hero_state).current_goal,
        final(hero_state).target_room_id == old(hero_state).target_room_id,
        path is Some ==> path_view(final(hero_state).current_path) == path_view(path)
            && final(hero_state).target_pos == old(hero_state).target_pos,
        path is None && !(old(hero_state).can_dig && old(hero_state).current_goal is DestroyHeart)
            ==> *final(hero_state) == *old(hero_state),
        path is None && old(hero_state).can_dig && old(hero_state).current_goal is DestroyHeart ==> {
            ||| *final(hero_state) == *old(hero_state)
            ||| {
                let t = final(hero_state).target_pos->0;
                &&& final(hero_state).target_pos is Some
                &&& final(hero_state).current_path is None
                &&& hero_pos.x - 3 <= t.x <= hero_pos.x + 3
                &&& hero_pos.y - 3 <= t.y <= hero_pos.y + 3
                &&& t != hero_pos
                &&& on_grid(game_state.dungeon, t)
                &&& tile_at(game_state.dungeon, t).tile_type@ != "hero_wall"@
            }
        },
        path_applied(*old(hero_state), *final(hero_state), hero_pos, path_view(path), game_state.dungeon),
{
    match path {
        Some(p) => {
            hero_state.current_path = Some(p);
        },
        None => {
            let attacking = match hero_state.current_goal {
                HeroGoal::DestroyHeart => true,
                _ => false,
            };
            if hero_state.can_dig && attacking {
                match find_emergency_wander_target(hero_pos, game_state) {
                    Some(wt) => {
                        hero_state.target_pos = Some(wt);
                        hero_state.current_path = None;
                    },
                    None => {},
                }
            }
        },
    }
}

/// Decide whether the hero flees: it does when the threat around it is
/// overwhelming, or high while it wants to retreat
/// (`retreat_on_high_threat`, its health against its nerve).
pub fn update_hero_fleeing(hero_pos: TilePos, hero_state: &mut HeroState, retreat_on_high_threat: bool, game_state: &GameState)
    ensures
        *final(hero_state) == (HeroState { is_fleeing: final(hero_state).is_fleeing, ..*old(hero_state) }),
        final(hero_state).is_fleeing == ({
            let t = threat_for(
                count_near(game_state.entities@, hero_pos) as int,
                count_strong_near(game_state.entities@, hero_pos) as int,
            );
            t == ThreatLevel::Overwhelming || (t == ThreatLevel::High && retreat_on_high_threat)
        }),
{
    let threat_level = evaluate_threat(hero_pos, game_state);
    hero_state.is_fleeing = threat_level == ThreatLevel::Overwhelming || (threat_level == ThreatLevel::High
        && retreat_on_high_threat);
}

/// Whether a hero's pathfinder may cross the tile at `(x, y)`: the dungeon
/// heart and hero gates always; otherwise a tile whose kind (the first with
/// its id) is known and does not block movement, or, for a hero that can dig,
/// is diggable and not the town's own wall.
pub open spec fn hero_passable(d: Dungeon, tiles: Seq<TileData>, can_dig: bool, x: int, y: int) -> bool {
    let t = d.grid@[y]@[x].tile_type@;
    ||| t == "dungeon_heart"@
    ||| t == "hero_gate"@
    ||| exists|i: int|
        #[trigger] first_tile_kind(tiles, t, i) && (!tiles[i].blocks_movement || (can_dig && tiles[i].diggable && t
            != "hero_wall"@))
}

/// Where a hero's pathfinder may go, row by row (see `hero_passable`).
pub open spec fn hero_walk_cells(d: Dungeon, tiles: Seq<TileData>, can_dig: bool) -> Seq<Seq<bool>> {
    Seq::new(d.height as nat, |y: int| Seq::new(d.width as nat, |x: int| hero_passable(d, tiles, can_dig, x, y)))
}

/// Whether a hero's pathfinder may cross this tile (see `hero_passable`).
fn hero_tile_passable(tile: &TileState, tiles: &Vec<TileData>, can_dig: bool) -> (r: bool)
    ensures
        r == ({
            let t = tile.tile_type@;
            ||| t == "dungeon_heart"@
            ||| t == "hero_gate"@
            ||| exists|i: int|
                #[trigger] first_tile_kind(tiles@, t, i) && (!tiles@[i].blocks_movement || (can_dig
                    && tiles@[i].diggable && t != "hero_wall"@))
        }),
{
    let ty = tile.tile_type.as_str();
    if str_eq(ty, "dungeon_heart") || str_eq(ty, "hero_gate") {
        return true;
    }
    let ghost t = tile.tile_type@;
    match find_tile_data(tiles, ty) {
        Some(i) => {
            proof {
                assert forall|k: int| #[trigger] first_tile_kind(tiles@, t, k) implies k == i by {
                    lemma_first_tile_kind_unique(tiles@, t, k, i as int);
                }
            }
            !tiles[i].blocks_movement || (can_dig && tiles[i].diggable && !str_eq(ty, "hero_wall"))
        },
        None => false,
    }
}

/// The walkability grid of a hero's pathfinder (see `hero_passable`).
pub fn hero_walk_grid(game_state: &GameState, game_data: &GameData, can_dig: bool) -> (vv: Vec<Vec<bool>>)
    requires
        dungeon_wf(game_state.dungeon),
    ensures
        walk_grid_wf(flags(&vv)),
        flags(&vv) == hero_walk_cells(game_state.dungeon, game_data.tiles@, can_dig),
{
    let ghost d = game_state.dungeon;
    let ghost g = cells(&d.grid);
    let mut vv: Vec<Vec<bool>> = Vec::new();
    let mut y: usize = 0;
    while y < game_state.dungeon.height
        invariant
            d == game_state.dungeon,
            dungeon_wf(d),
            g == cells(&d.grid),
            y <= d.height,
            vv@.len() == y,
            forall|yy: int| 0 <= yy < y ==> #[trigger] vv@[yy]@.len() == d.width,
            forall|x: int, yy: int|
                #![trigger vv@[yy]@[x]]
                0 <= yy < y && 0 <= x < d.width ==> vv@[yy]@[x] == hero_passable(d, game_data.tiles@, can_dig, x, yy),
        decreases d.height - y,
    {
        proof {
            assert(g[y as int].len() == g[0].len());
        }
        let mut row: Vec<bool> = Vec::new();
        let mut x: usize = 0;
        while x < game_state.dungeon.width
            invariant
                d == game_state.dungeon,
                dungeon_wf(d),
                y < d.height,
                d.grid@[y as int]@.len() == d.width,
                x <= d.width,
                row@.len() == x,
                forall|xx: int| #![trigger row@[xx]] 0 <= xx < x ==> row@[xx] == hero_passable(d, game_data.tiles@, can_dig, xx, y as int),
            decreases d.width - x,
        {
            let ok = hero_tile_passable(&game_state.dungeon.grid[y][x], &game_data.tiles, can_dig);
            row.push(ok);
            x = x + 1;
        }
        vv.push(row);
        y = y + 1;
    }
    proof {
        let want = hero_walk_cells(d, game_data.tiles@, can_dig);
        assert forall|yy: int| 0 <= yy < flags(&vv).len() implies #[trigger] flags(&vv)[yy].len() == flags(&vv)[0].len() by {
            assert(vv@[yy]@.len() == d.width);
            assert(vv@[0]@.len() == d.width);
        }
        assert(flags(&vv) =~= want) by {
            assert forall|yy: int| 0 <= yy < want.len() implies #[trigger] flags(&vv)[yy] =~= want[yy] by {
                assert(vv@[yy]@.len() == d.width);
            }
        }
    }
    vv
}

/// Whether a hero gets onto the tile at `(x, y)` only by digging through it:
/// a known kind that blocks movement but that a digging hero may dig (not
/// the town's own wall). Such a tile costs the pathfinder 10 to enter.
pub open spec fn hero_slow(d: Dungeon, tiles: Seq<TileData>, can_dig: bool, x: int, y: int) -> bool {
    let t = d.grid@[y]@[x].tile_type@;
    &&& t != "dungeon_heart"@
    &&& t != "hero_gate"@
    &&& exists|i: int|
        #[trigger] first_tile_kind(tiles, t, i) && tiles[i].blocks_movement && can_dig && tiles[i].diggable && t
            != "hero_wall"@
}

/// The tiles a hero digs through, row by row (see `hero_slow`).
pub open spec fn hero_slow_cells(d: Dungeon, tiles: Seq<TileData>, can_dig: bool) -> Seq<Seq<bool>> {
    Seq::new(d.height as nat, |y: int| Seq::new(d.width as nat, |x: int| hero_slow(d, tiles, can_dig, x, y)))
}

/// Whether a hero gets onto this tile only by digging (see `hero_slow`).
fn hero_tile_slow(tile: &TileState, tiles: &Vec<TileData>, can_dig: bool) -> (r: bool)
    ensures
        r == ({
            let t = tile.tile_type@;
            &&& t != "dungeon_heart"@
            &&& t != "hero_gate"@
            &&& exists|i: int|
                #[trigger] first_tile_kind(tiles@, t, i) && tiles@[i].blocks_movement && can_dig && tiles@[i].diggable
                    && t != "hero_wall"@
        }),
{
    let ty = tile.tile_type.as_str();
    if str_eq(ty, "dungeon_heart") || str_eq(ty, "hero_gate") {
        return false;
    }
    let ghost t = tile.tile_type@;
    match find_tile_data(tiles, ty) {
        Some(i) => {
            proof {
                assert forall|k: int| #[trigger] first_tile_kind(tiles@, t, k) implies k == i by {
                    lemma_first_tile_kind_unique(tiles@, t, k, i as int);
                }
            }
            tiles[i].blocks_movement && can_dig && tiles[i].diggable && !str_eq(ty, "hero_wall")
        },
        None => false,
    }
}

/// The grid of tiles a hero digs through (see `hero_slow`).
pub fn hero_slow_grid(game_state: &GameState, game_data: &GameData, can_dig: bool) -> (vv: Vec<Vec<bool>>)
    requires
        dungeon_wf(game_state.dungeon),
    ensures
        flags(&vv) == hero_slow_cells(game_state.dungeon, game_data.tiles@, can_dig),
{
    let ghost d = game_state.dungeon;
    let ghost g = cells(&d.grid);
    let mut vv: Vec<Vec<bool>> = Vec::new();
    let mut y: usize = 0;
    while y < game_state.dungeon.height
        invariant
            d == game_state.dungeon,
            dungeon_wf(d),
            g == cells(&d.grid),
            y <= d.height,
            vv@.len() == y,
            forall|yy: int| 0 <= yy < y ==> #[trigger] vv@[yy]@.len() == d.width,
            forall|x: int, yy: int|
                #![trigger vv@[yy]@[x]]
                0 <= yy < y && 0 <= x < d.width ==> vv@[yy]@[x] == hero_slow(d, game_data.tiles@, can_dig, x, yy),
        decreases d.height - y,
    {
        proof {
            assert(g[y as int].len() == g[0].len());
        }
        let mut row: Vec<bool> = Vec::new();
        let mut x: usize = 0;
        while x < game_state.dungeon.width
            invariant
                d == game_state.dungeon,
                dungeon_wf(d),
                y < d.height,
                d.grid@[y as int]@.len() == d.width,
                x <= d.width,
                row@.len() == x,
                forall|xx: int| #![trigger row@[xx]] 0 <= xx < x ==> row@[xx] == hero_slow(d, game_data.tiles@, can_dig, xx, y as int),
            decreases d.width - x,
        {
            let slow = hero_tile_slow(&game_state.dungeon.grid[y][x], &game_data.tiles, can_dig);
            row.push(slow);
            x = x + 1;
        }
        vv.push(row);
        y = y + 1;
    }
    proof {
        let want = hero_slow_cells(d, game_data.tiles@, can_dig);
        assert(flags(&vv) =~= want) by {
            assert forall|yy: int| 0 <= yy < want.len() implies #[trigger] flags(&vv)[yy] =~= want[yy] by {
                assert(vv@[yy]@.len() == d.width);
            }
        }
    }
    vv
}

/// The path a hero at `hero_pos` takes to `target` (see `find_cheapest_path`
/// over `hero_walk_cells`, where the tiles of `hero_slow_cells` cost 10 to
/// enter and all others 1); none when the target cannot be reached.
pub fn find_hero_path(
    game_state: &GameState,
    game_data: &GameData,
    hero_pos: TilePos,
    target: TilePos,
    can_dig: bool,
) -> (r: Option<Vec<TilePos>>)
    requires
        dungeon_wf(game_state.dungeon),
    ensures
        r is Some == reachable(
            walkable_in(hero_walk_cells(game_state.dungeon, game_data.tiles@, can_dig)),
            cell_of(hero_pos),
            cell_of(target),
        ),
        r matches Some(p) ==> leads(hero_walk_cells(game_state.dungeon, game_data.tiles@, can_dig), hero_pos, target, p@),
        r matches Some(p) ==> cheapest_walk(
            hero_walk_cells(game_state.dungeon, game_data.tiles@, can_dig),
            hero_slow_cells(game_state.dungeon, game_data.tiles@, can_dig),
            hero_pos,
            target,
            p@,
        ),
{
    let vv = hero_walk_grid(game_state, game_data, can_dig);
    let slow = hero_slow_grid(game_state, game_data, can_dig);
    proof {
        let d = game_state.dungeon;
        assert(flags(&vv)[0].len() == d.width);
        assert forall|y: int| 0 <= y < d.height implies #[trigger] flags(&slow)[y].len() == d.width by {}
    }
    find_cheapest_path(&vv, &slow, hero_pos, target)
}

/// Whether a hero at `pos` flees: the threat around it is overwhelming, or
/// high while `retreat_on_high_threat`.
pub open spec fn flees(es: Seq<crate::world::Entity>, pos: TilePos, retreat_on_high_threat: bool) -> bool {
    let t = threat_for(count_near(es, pos) as int, count_strong_near(es, pos) as int);
    t == ThreatLevel::Overwhelming || (t == ThreatLevel::High && retreat_on_high_threat)
}

/// `r` is what the hero pathfinder answers for a walk from `from` to `to`:
/// a path exactly when one exists, and then a cheapest one that leads there.
pub open spec fn hero_path_found(d: Dungeon, tiles: Seq<TileData>, can_dig: bool, from: TilePos, to: TilePos, r: Option<Seq<TilePos>>) -> bool {
    &&& r is Some == reachable(walkable_in(hero_walk_cells(d, tiles, can_dig)), cell_of(from), cell_of(to))
    &&& r matches Some(p) ==> leads(hero_walk_cells(d, tiles, can_dig), from, to, p)
    &&& r matches Some(p) ==> cheapest_walk(hero_walk_cells(d, tiles, can_dig), hero_slow_cells(d, tiles, can_dig), from, to, p)
}

/// One turn of a hero's thinking, from `h0` to `h3`: planning gives `h1`
/// (see `update_hero_ai`); when it asks for a path, the pathfinder's answer
/// is taken and gives `h2` (see `apply_path_result`), else `h2` is `h1`;
/// last, whether it flees is decided again.
pub open spec fn hero_turn(
    h0: HeroState,
    h1: HeroState,
    h2: HeroState,
    h3: HeroState,
    pos: TilePos,
    profile: Option<HeroGoalProfile>,
    treasury_priority_positive: bool,
    retreating: bool,
    retreat_on_high_threat: bool,
    s: GameState,
    tiles: Seq<TileData>,
) -> bool {
    &&& same_but_plan(h0, h1)
    &&& planned(
        hero_view(h0),
        hero_view(h1),
        pos,
        h0.is_defender,
        h0.spawn_pos,
        decided_goal(h0, pos, profile, retreating, s),
        treasury_priority_positive,
        s,
        tiles,
    )
    &&& match path_request(hero_view(h1), pos) {
        None => h2 == h1,
        Some(t) => exists|r: Option<Seq<TilePos>>|
            #[trigger] hero_path_found(s.dungeon, tiles, h1.can_dig, pos, t, r) && path_applied(h1, h2, pos, r, s.dungeon),
    }
    &&& h3 == HeroState { is_fleeing: flees(s.entities@, pos, retreat_on_high_threat), ..h2 }
}

/// The profile a hero's optional profile reference points to.
pub open spec fn profile_value(profile: Option<&HeroGoalProfile>) -> Option<HeroGoalProfile> {
    match profile {
        Some(p) => Some(*p),
        None => None,
    }
}

/// Run one turn of a hero at `hero_pos`: plan (`update_hero_ai`), find the
/// path it asks for (`find_hero_path`) and take the answer
/// (`apply_path_result`), then decide whether it flees
/// (`update_hero_fleeing`). `retreating` and `retreat_on_high_threat` say
/// whether its health fell below its nerve and below the fleeing mark.
pub fn run_hero_turn(
    hero_pos: TilePos,
    hero_state: &mut HeroState,
    profile: Option<&HeroGoalProfile>,
    treasury_priority_positive: bool,
    retreating: bool,
    retreat_on_high_threat: bool,
    game_state: &GameState,
    game_data: &GameData,
)
    requires
        dungeon_wf(game_state.dungeon),
        rooms_measurable(game_state.rooms@),
        roomy(old(hero_state).spawn_pos, 5),
        old(hero_state).current_goal matches HeroGoal::RestAtSpawn(sp) ==> roomy(sp, 5),
        roomy(hero_pos, 3),
    ensures
        exists|h1: HeroState, h2: HeroState|
            #[trigger] hero_turn(
                *old(hero_state),
                h1,
                h2,
                *final(hero_state),
                hero_pos,
                profile_value(profile),
                treasury_priority_positive,
                retreating,
                retreat_on_high_threat,
                *game_state,
                game_data.tiles@,
            ),
{
    let ghost h0 = *hero_state;
    let ghost prof = profile_value(profile);
    let request = update_hero_ai(
        hero_pos,
        hero_state,
        profile,
        treasury_priority_positive,
        retreating,
        game_state,
        game_data,
    );
    let ghost h1 = *hero_state;
    match request {
        Some(target) => {
            let can_dig = hero_state.can_dig;
            let path = find_hero_path(game_state, game_data, hero_pos, target, can_dig);
            let ghost r = path_view(path);
            proof {
                assert(hero_path_found(game_state.dungeon, game_data.tiles@, h1.can_dig, hero_pos, target, r));
            }
            apply_path_result(hero_pos, hero_state, path, game_state);
        },
        None => {},
    }
    let ghost h2 = *hero_state;
    update_hero_fleeing(hero_pos, hero_state, retreat_on_high_threat, game_state);
    proof {
        assert(hero_turn(
            h0,
            h1,
            h2,
            *hero_state,
            hero_pos,
            prof,
            treasury_priority_positive,
            retreating,
            retreat_on_high_threat,
            *game_state,
            game_data.tiles@,
        ));
    }
}

} // verus!
