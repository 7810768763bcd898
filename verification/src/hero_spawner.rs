//! The heroes' town sending out heroes: each standing building counts down
//! its spawn timers, and each hero due is placed on a free spot near its
//! building. Creating the hero entities is left to the caller, which owns
//! the heroes' stats.
use vstd::prelude::*;
use crate::tiles::{TilePos, str_eq};
use crate::campaign::{strs, contains_str};
use crate::world::{
    GameState, Entity, HeroBaseState, HeroBuildingState, SpawnTimer, Dungeon, dungeon_wf, on_grid,
    tile_at, entity_exists,
};
use crate::data::{GameData, SpawnTrigger, TileData};
use crate::hero_planner::{first_tile_kind, find_tile_data, lemma_first_tile_kind_unique};
use crate::scenario::lemma_holds_str;

verus! {

/// A hero to create: its kind and where it appears.
#[derive(Debug)]
pub struct HeroSpawnRequest {
    pub hero_id: String,
    pub pos: TilePos,
}

/// The building still has its entity on the map.
pub open spec fn building_alive(b: HeroBuildingState, es: Seq<Entity>) -> bool {
    match b.entity_id {
        Some(id) => entity_exists(es, id),
        None => false,
    }
}

/// `i` is the first spawn trigger of the building kind for the hero kind.
pub open spec fn first_trigger(ts: Seq<SpawnTrigger>, building: Seq<char>, hero: Seq<char>, i: int) -> bool {
    &&& 0 <= i < ts.len()
    &&& ts[i].building@ == building && ts[i].hero_id@ == hero
    &&& forall|j: int| 0 <= j < i ==> !((#[trigger] ts[j]).building@ == building && ts[j].hero_id@ == hero)
}

/// How long a building of the kind waits between heroes of the kind: its
/// spawn trigger's rate, else a minute.
pub open spec fn spawn_rate(ts: Seq<SpawnTrigger>, building: Seq<char>, hero: Seq<char>) -> i64 {
    if exists|i: int| first_trigger(ts, building, hero, i) {
        ts[choose|i: int| first_trigger(ts, building, hero, i)].spawn_rate_ms
    } else {
        60_000
    }
}

/// The timer after `dt` milliseconds: it counts down, and once it runs out
/// it restarts at the rate.
pub open spec fn timer_after(t: i64, dt: i64, rate: i64) -> i64 {
    if t - dt <= 0 {
        rate
    } else {
        (t - dt) as i64
    }
}

/// The timer runs out within `dt` milliseconds.
pub open spec fn timer_fires(t: i64, dt: i64) -> bool {
    t - dt <= 0
}

/// The heroes whose timers among `tms` run out, in order.
pub open spec fn fired_heroes(tms: Seq<SpawnTimer>, dt: i64) -> Seq<Seq<char>>
    decreases tms.len(),
{
    if tms.len() == 0 {
        Seq::empty()
    } else {
        fired_heroes(tms.drop_last(), dt) + if timer_fires(tms.last().time_until_spawn_ms, dt) {
            seq![tms.last().hero_id@]
        } else {
            Seq::empty()
        }
    }
}

/// The heroes due from the standing buildings of `bs`, with the building's
/// position, in order.
pub open spec fn due_heroes(bs: Seq<HeroBuildingState>, es: Seq<Entity>, dt: i64) -> Seq<(Seq<char>, TilePos)>
    decreases bs.len(),
{
    if bs.len() == 0 {
        Seq::empty()
    } else {
        due_heroes(bs.drop_last(), es, dt) + if building_alive(bs.last(), es) {
            fired_heroes(bs.last().spawn_timers@, dt).map_values(|h: Seq<char>| (h, bs.last().pos))
        } else {
            Seq::empty()
        }
    }
}

/// `b1` is the building `b0` after `dt` milliseconds: a standing building's
/// timers count down (and restart when they run out); anything else stays.
pub open spec fn building_after(b0: HeroBuildingState, b1: HeroBuildingState, es: Seq<Entity>, ts: Seq<SpawnTrigger>, dt: i64) -> bool {
    if building_alive(b0, es) {
        &&& b1 == HeroBuildingState { spawn_timers: b1.spawn_timers, ..b0 }
        &&& b1.spawn_timers@.len() == b0.spawn_timers@.len()
        &&& forall|j: int|
            0 <= j < b0.spawn_timers@.len() ==> {
                &&& (#[trigger] b1.spawn_timers@[j]).hero_id == b0.spawn_timers@[j].hero_id
                &&& b1.spawn_timers@[j].time_until_spawn_ms == timer_after(
                    b0.spawn_timers@[j].time_until_spawn_ms,
                    dt,
                    spawn_rate(ts, b0.building_type@, b0.spawn_timers@[j].hero_id@),
                )
            }
    } else {
        b1 == b0
    }
}

/// No timer can overflow when `dt` is taken off it.
pub open spec fn timers_fit(bs: Seq<HeroBuildingState>, dt: i64) -> bool {
    forall|k: int, j: int|
        0 <= k < bs.len() && 0 <= j < bs[k].spawn_timers@.len() ==> i64::MIN + dt <= (
        #[trigger] bs[k].spawn_timers@[j]).time_until_spawn_ms
}

/// Whether the building still has its entity on the map.
fn is_building_alive(b: &HeroBuildingState, entities: &Vec<Entity>) -> (r: bool)
    ensures
        r == building_alive(*b, entities@),
{
    match b.entity_id {
        Some(id) => {
            let mut i: usize = 0;
            while i < entities.len()
                invariant
                    b.entity_id == Some(id),
                    i <= entities@.len(),
                    forall|t: int| 0 <= t < i ==> (#[trigger] entities@[t]).id != id,
                decreases entities@.len() - i,
            {
                if entities[i].id == id {
                    assert(entities@[i as int].id == id);
                    return true;
                }
                i = i + 1;
            }
            false
        },
        None => false,
    }
}

/// The spawn rate of the building kind for the hero kind (see `spawn_rate`).
fn find_spawn_rate(triggers: &Vec<SpawnTrigger>, building: &str, hero: &str) -> (r: i64)
    ensures
        r == spawn_rate(triggers@, building@, hero@),
{
    let mut i: usize = 0;
    while i < triggers.len()
        invariant
            i <= triggers@.len(),
            forall|j: int| 0 <= j < i ==> !((#[trigger] triggers@[j]).building@ == building@ && triggers@[j].hero_id@ == hero@),
        decreases triggers@.len() - i,
    {
        if str_eq(triggers[i].building.as_str(), building) && str_eq(triggers[i].hero_id.as_str(), hero) {
            proof {
                assert(first_trigger(triggers@, building@, hero@, i as int));
                let c = choose|k: int| first_trigger(triggers@, building@, hero@, k);
                if c < i {
                    assert(!(triggers@[c].building@ == building@ && triggers@[c].hero_id@ == hero@));
                }
                if i < c {
                    assert(!(triggers@[i as int].building@ == building@ && triggers@[i as int].hero_id@ == hero@));
                }
            }
            return triggers[i].spawn_rate_ms;
        }
        i = i + 1;
    }
    proof {
        assert(!exists|k: int| first_trigger(triggers@, building@, hero@, k));
    }
    60_000
}

/// The view of a list of (hero, position) pairs.
pub open spec fn queued_view(v: Seq<(String, TilePos)>) -> Seq<(Seq<char>, TilePos)> {
    v.map_values(|p: (String, TilePos)| (p.0@, p.1))
}

/// Count down the timers of the town's standing buildings by `dt_ms`, and
/// return the heroes that are due, with their building's position, in order.
pub fn tick_hero_buildings(
    hero_base: &mut HeroBaseState,
    entities: &Vec<Entity>,
    triggers: &Vec<SpawnTrigger>,
    dt_ms: i64,
) -> (due: Vec<(String, TilePos)>)
    requires
        dt_ms >= 0,
        timers_fit(old(hero_base).buildings@, dt_ms),
    ensures
        final(hero_base).enabled == old(hero_base).enabled,
        final(hero_base).buildings@.len() == old(hero_base).buildings@.len(),
        forall|k: int|
            0 <= k < old(hero_base).buildings@.len() ==> building_after(
                old(hero_base).buildings@[k],
                #[trigger] final(hero_base).buildings@[k],
                entities@,
                triggers@,
                dt_ms,
            ),
        queued_view(due@) == due_heroes(old(hero_base).buildings@, entities@, dt_ms),
{
    let ghost bs0 = hero_base.buildings@;
    let mut due: Vec<(String, TilePos)> = Vec::new();
    let mut k: usize = 0;
    while k < hero_base.buildings.len()
        invariant
            k <= bs0.len(),
            dt_ms >= 0,
            timers_fit(bs0, dt_ms),
            hero_base.enabled == old(hero_base).enabled,
            hero_base.buildings@.len() == bs0.len(),
            forall|t: int| 0 <= t < k ==> building_after(bs0[t], #[trigger] hero_base.buildings@[t], entities@, triggers@, dt_ms),
            forall|t: int| k <= t < bs0.len() ==> #[trigger] hero_base.buildings@[t] == bs0[t],
            queued_view(due@) == due_heroes(bs0.take(k as int), entities@, dt_ms),
        decreases bs0.len() - k,
    {
        assert(bs0.take(k + 1).drop_last() =~= bs0.take(k as int));
        assert(hero_base.buildings@[k as int] == bs0[k as int]);
        let alive = is_building_alive(&hero_base.buildings[k], entities);
        if alive {
            let ghost b0 = bs0[k as int];
            let ghost base_due = queued_view(due@);
            let mut j: usize = 0;
            while j < hero_base.buildings[k].spawn_timers.len()
                invariant
                    k < bs0.len(),
                    dt_ms >= 0,
                    timers_fit(bs0, dt_ms),
                    b0 == bs0[k as int],
                    building_alive(b0, entities@),
                    hero_base.enabled == old(hero_base).enabled,
                    hero_base.buildings@.len() == bs0.len(),
                    forall|t: int| 0 <= t < k ==> building_after(bs0[t], #[trigger] hero_base.buildings@[t], entities@, triggers@, dt_ms),
                    forall|t: int| k < t < bs0.len() ==> #[trigger] hero_base.buildings@[t] == bs0[t],
                    hero_base.buildings@[k as int] == (HeroBuildingState { spawn_timers: hero_base.buildings@[k as int].spawn_timers, ..b0 }),
                    hero_base.buildings@[k as int].spawn_timers@.len() == b0.spawn_timers@.len(),
                    j <= b0.spawn_timers@.len(),
                    forall|u: int|
                        0 <= u < j ==> {
                            &&& (#[trigger] hero_base.buildings@[k as int].spawn_timers@[u]).hero_id == b0.spawn_timers@[u].hero_id
                            &&& hero_base.buildings@[k as int].spawn_timers@[u].time_until_spawn_ms == timer_after(
                                b0.spawn_timers@[u].time_until_spawn_ms,
                                dt_ms,
                                spawn_rate(triggers@, b0.building_type@, b0.spawn_timers@[u].hero_id@),
                            )
                        },
                    forall|u: int| j <= u < b0.spawn_timers@.len() ==> #[trigger] hero_base.buildings@[k as int].spawn_timers@[u] == b0.spawn_timers@[u],
                    queued_view(due@) == base_due + fired_heroes(b0.spawn_timers@.take(j as int), dt_ms).map_values(|h: Seq<char>| (h, b0.pos)),
                decreases b0.spawn_timers@.len() - j,
            {
                assert(b0.spawn_timers@.take(j + 1).drop_last() =~= b0.spawn_timers@.take(j as int));
                let ghost tm = b0.spawn_timers@[j as int];
                assert(hero_base.buildings@[k as int].spawn_timers@[j as int] == tm);
                assert(i64::MIN + dt_ms <= tm.time_until_spawn_ms) by {
                    assert(bs0[k as int].spawn_timers@[j as int] == tm);
                }
                let left = hero_base.buildings[k].spawn_timers[j].time_until_spawn_ms - dt_ms;
                if left <= 0 {
                    let rate = find_spawn_rate(
                        triggers,
                        hero_base.buildings[k].building_type.as_str(),
                        hero_base.buildings[k].spawn_timers[j].hero_id.as_str(),
                    );
                    hero_base.buildings[k].spawn_timers[j].time_until_spawn_ms = rate;
                    let hero_id = hero_base.buildings[k].spawn_timers[j].hero_id.clone();
                    let pos = hero_base.buildings[k].pos;
                    let ghost before = due@;
                    due.push((hero_id, pos));
                    proof {
                        assert(queued_view(due@) =~= queued_view(before) + seq![(tm.hero_id@, b0.pos)]);
                        let f0 = fired_heroes(b0.spawn_timers@.take(j as int), dt_ms);
                        assert(fired_heroes(b0.spawn_timers@.take(j + 1), dt_ms) == f0 + seq![tm.hero_id@]);
                        assert((f0 + seq![tm.hero_id@]).map_values(|h: Seq<char>| (h, b0.pos)) =~= f0.map_values(
                            |h: Seq<char>| (h, b0.pos),
                        ) + seq![(tm.hero_id@, b0.pos)]);
                    }
                } else {
                    hero_base.buildings[k].spawn_timers[j].time_until_spawn_ms = left;
                    assert(fired_heroes(b0.spawn_timers@.take(j + 1), dt_ms) =~= fired_heroes(
                        b0.spawn_timers@.take(j as int),
                        dt_ms,
                    ));
                }
                j = j + 1;
            }
            proof {
                assert(b0.spawn_timers@.take(b0.spawn_timers@.len() as int) =~= b0.spawn_timers@);
                assert(building_after(bs0[k as int], hero_base.buildings@[k as int], entities@, triggers@, dt_ms));
            }
        } else {
            assert(queued_view(due@) =~= due_heroes(bs0.take(k + 1), entities@, dt_ms));
        }
        k = k + 1;
    }
    assert(bs0.take(bs0.len() as int) =~= bs0);
    due
}

/// The kind of tile `t` blocks movement (a kind the game does not know
/// does not).
pub open spec fn kind_blocks(tiles: Seq<TileData>, t: Seq<char>) -> bool {
    exists|i: int| first_tile_kind(tiles, t, i) && tiles[i].blocks_movement
}

/// The spot `(dx, dy)` away from `c`.
pub open spec fn cand(c: TilePos, dx: int, dy: int) -> TilePos {
    TilePos { x: (c.x + dx) as i32, y: (c.y + dy) as i32 }
}

/// A hero may appear at `p`: it lies on the map, its tile does not block
/// movement, no entity stands there, and no hero was placed there before
/// (`taken`).
pub open spec fn spawn_free(d: Dungeon, es: Seq<Entity>, tiles: Seq<TileData>, taken: Seq<TilePos>, p: TilePos) -> bool {
    &&& on_grid(d, p)
    &&& !kind_blocks(tiles, tile_at(d, p).tile_type@)
    &&& !exists|i: int| 0 <= i < es.len() && (#[trigger] es[i]).pos == p
    &&& !taken.contains(p)
}

/// `(r, dy, dx)` is a step of the search: rings of radius 1 to 4, each
/// scanned row by row over the disk of that radius.
pub open spec fn in_scan(r: int, dy: int, dx: int) -> bool {
    1 <= r <= 4 && -r <= dy <= r && -r <= dx <= r && dx * dx + dy * dy <= r * r
}

/// Step `(r1, dy1, dx1)` of the search comes before `(r2, dy2, dx2)`.
pub open spec fn scan_before(r1: int, dy1: int, dx1: int, r2: int, dy2: int, dx2: int) -> bool {
    r1 < r2 || (r1 == r2 && (dy1 < dy2 || (dy1 == dy2 && dx1 < dx2)))
}

/// `p` is where a hero from `c` appears: the spot of the first step of the
/// search that is free, or `c` itself when none is.
pub open spec fn spawn_spot(d: Dungeon, es: Seq<Entity>, tiles: Seq<TileData>, taken: Seq<TilePos>, c: TilePos, p: TilePos) -> bool {
    if exists|r: int, dy: int, dx: int| #[trigger] in_scan(r, dy, dx) && #[trigger] spawn_free(d, es, tiles, taken, cand(c, dx, dy)) {
        exists|r: int, dy: int, dx: int|
            #![trigger in_scan(r, dy, dx), spawn_free(d, es, tiles, taken, cand(c, dx, dy))]
            {
                &&& in_scan(r, dy, dx)
                &&& p == cand(c, dx, dy)
                &&& spawn_free(d, es, tiles, taken, cand(c, dx, dy))
                &&& forall|r2: int, dy2: int, dx2: int|
                    #[trigger] in_scan(r2, dy2, dx2) && scan_before(r2, dy2, dx2, r, dy, dx) ==> !#[trigger] spawn_free(
                        d,
                        es,
                        tiles,
                        taken,
                        cand(c, dx2, dy2),
                    )
            }
    } else {
        p == c
    }
}

/// Whether a hero may appear at `p` (see `spawn_free`).
fn is_spawn_free(state: &GameState, game_data: &GameData, taken: &Vec<TilePos>, p: TilePos) -> (r: bool)
    requires
        dungeon_wf(state.dungeon),
    ensures
        r == spawn_free(state.dungeon, state.entities@, game_data.tiles@, taken@, p),
{
    let tile = match state.dungeon.get_tile(p) {
        Some(t) => t,
        None => {
            return false;
        },
    };
    let ghost t = tile.tile_type@;
    let blocks = match find_tile_data(&game_data.tiles, tile.tile_type.as_str()) {
        Some(i) => {
            proof {
                if kind_blocks(game_data.tiles@, t) {
                    let k = choose|k: int| first_tile_kind(game_data.tiles@, t, k) && game_data.tiles@[k].blocks_movement;
                    lemma_first_tile_kind_unique(game_data.tiles@, t, k, i as int);
                }
            }
            game_data.tiles[i].blocks_movement
        },
        None => false,
    };
    assert(blocks == kind_blocks(game_data.tiles@, t));
    if blocks {
        return false;
    }
    let mut e: usize = 0;
    while e < state.entities.len()
        invariant
            e <= state.entities@.len(),
            forall|j: int| 0 <= j < e ==> (#[trigger] state.entities@[j]).pos != p,
        decreases state.entities@.len() - e,
    {
        if state.entities[e].pos == p {
            assert(state.entities@[e as int].pos == p);
            return false;
        }
        e = e + 1;
    }
    let mut t: usize = 0;
    while t < taken.len()
        invariant
            t <= taken@.len(),
            forall|j: int| 0 <= j < t ==> taken@[j] != p,
        decreases taken@.len() - t,
    {
        if taken[t] == p {
            assert(taken@.contains(p)) by {
                assert(taken@[t as int] == p);
            }
            return false;
        }
        t = t + 1;
    }
    true
}

/// Find where a hero from `center` appears (see `spawn_spot`).
pub fn find_spawn_pos(state: &GameState, center: TilePos, game_data: &GameData, taken: &Vec<TilePos>) -> (p: TilePos)
    requires
        dungeon_wf(state.dungeon),
        -0x7fff_0000 <= center.x <= 0x7fff_0000,
        -0x7fff_0000 <= center.y <= 0x7fff_0000,
    ensures
        spawn_spot(state.dungeon, state.entities@, game_data.tiles@, taken@, center, p),
{
    let ghost tiles = game_data.tiles@;
    let mut r: i32 = 1;
    while r <= 4
        invariant
            1 <= r <= 5,
            dungeon_wf(state.dungeon),
            -0x7fff_0000 <= center.x <= 0x7fff_0000,
            -0x7fff_0000 <= center.y <= 0x7fff_0000,
            tiles == game_data.tiles@,
            forall|r2: int, dy2: int, dx2: int|
                #[trigger] in_scan(r2, dy2, dx2) && r2 < r ==> !#[trigger] spawn_free(state.dungeon, state.entities@, tiles, taken@, cand(center, dx2, dy2)),
        decreases 5 - r,
    {
        let mut dy: i32 = -r;
        while dy <= r
            invariant
                1 <= r <= 4,
                -r <= dy <= r + 1,
                dungeon_wf(state.dungeon),
                -0x7fff_0000 <= center.x <= 0x7fff_0000,
                -0x7fff_0000 <= center.y <= 0x7fff_0000,
                tiles == game_data.tiles@,
                forall|r2: int, dy2: int, dx2: int|
                    #[trigger] in_scan(r2, dy2, dx2) && (r2 < r || (r2 == r && dy2 < dy)) ==> !#[trigger] spawn_free(
                        state.dungeon,
                        state.entities@,
                        tiles,
                        taken@,
                        cand(center, dx2, dy2),
                    ),
            decreases r + 1 - dy,
        {
            let mut dx: i32 = -r;
            while dx <= r
                invariant
                    1 <= r <= 4,
                    -r <= dy <= r,
                    -r <= dx <= r + 1,
                    dungeon_wf(state.dungeon),
                    -0x7fff_0000 <= center.x <= 0x7fff_0000,
                    -0x7fff_0000 <= center.y <= 0x7fff_0000,
                    tiles == game_data.tiles@,
                    forall|r2: int, dy2: int, dx2: int|
                        #[trigger] in_scan(r2, dy2, dx2) && scan_before(r2, dy2, dx2, r as int, dy as int, dx as int)
                            ==> !#[trigger] spawn_free(state.dungeon, state.entities@, tiles, taken@, cand(center, dx2, dy2)),
                decreases r + 1 - dx,
            {
                assert(0 <= dx * dx <= 25 && 0 <= dy * dy <= 16 && r * r <= 16) by (nonlinear_arith)
                    requires
                        -5 <= dx <= 5,
                        -4 <= dy <= 4,
                        1 <= r <= 4,
                ;
                if dx * dx + dy * dy <= r * r {
                    let pos = TilePos::new(center.x + dx, center.y + dy);
                    assert(pos == cand(center, dx as int, dy as int));
                    if is_spawn_free(state, game_data, taken, pos) {
                        proof {
                            assert(in_scan(r as int, dy as int, dx as int));
                            assert(spawn_free(state.dungeon, state.entities@, tiles, taken@, cand(center, dx as int, dy as int)));
                        }
                        return pos;
                    }
                }
                dx = dx + 1;
            }
            dy = dy + 1;
        }
        r = r + 1;
    }
    proof {
        assert forall|r2: int, dy2: int, dx2: int| #[trigger] in_scan(r2, dy2, dx2) implies !#[trigger] spawn_free(
            state.dungeon,
            state.entities@,
            tiles,
            taken@,
            cand(center, dx2, dy2),
        ) by {}
    }
    center
}

/// The positions of a list of placements.
pub open spec fn placed_positions(out: Seq<(Seq<char>, TilePos)>) -> Seq<TilePos> {
    out.map_values(|p: (Seq<char>, TilePos)| p.1)
}

/// `out` places, in order, each due hero of `due` that the game knows
/// (`heroes`): each at the spot where a hero from its building appears,
/// with the heroes placed before it counted as standing there.
pub open spec fn placements(
    due: Seq<(Seq<char>, TilePos)>,
    out: Seq<(Seq<char>, TilePos)>,
    s: GameState,
    tiles: Seq<TileData>,
    heroes: Seq<Seq<char>>,
) -> bool
    decreases due.len(),
{
    if due.len() == 0 {
        out.len() == 0
    } else if heroes.contains(due.last().0) {
        &&& out.len() > 0
        &&& placements(due.drop_last(), out.drop_last(), s, tiles, heroes)
        &&& out.last().0 == due.last().0
        &&& spawn_spot(s.dungeon, s.entities@, tiles, placed_positions(out.drop_last()), due.last().1, out.last().1)
    } else {
        placements(due.drop_last(), out, s, tiles, heroes)
    }
}

/// The contents of a list of spawn requests.
pub open spec fn requests_view(v: Seq<HeroSpawnRequest>) -> Seq<(Seq<char>, TilePos)> {
    v.map_values(|r: HeroSpawnRequest| (r.hero_id@, r.pos))
}

/// Every building of the town stands far enough inside the coordinate range
/// for the search around it.
pub open spec fn buildings_placed_sanely(bs: Seq<HeroBuildingState>) -> bool {
    forall|k: int|
        0 <= k < bs.len() ==> -0x7fff_0000 <= (#[trigger] bs[k]).pos.x <= 0x7fff_0000 && -0x7fff_0000
            <= bs[k].pos.y <= 0x7fff_0000
}

/// Advance the heroes' town by `dt_ms` milliseconds: with a town on the map,
/// its standing buildings count down their timers (see
/// `tick_hero_buildings`), and each hero that is due and known to the game
/// is placed near its building (see `spawn_spot`). The heroes to create are
/// returned in order.
pub fn update_hero_spawning(state: &mut GameState, game_data: &GameData, dt_ms: i64) -> (requests: Vec<HeroSpawnRequest>)
    requires
        dungeon_wf(old(state).dungeon),
        dt_ms >= 0,
        timers_fit(old(state).hero_base.buildings@, dt_ms),
        buildings_placed_sanely(old(state).hero_base.buildings@),
    ensures
        !old(state).hero_base.enabled ==> *final(state) == *old(state) && requests@.len() == 0,
        old(state).hero_base.enabled ==> {
            &&& *final(state) == (GameState { hero_base: final(state).hero_base, ..*old(state) })
            &&& final(state).hero_base.enabled
            &&& final(state).hero_base.buildings@.len() == old(state).hero_base.buildings@.len()
            &&& forall|k: int|
                0 <= k < old(state).hero_base.buildings@.len() ==> building_after(
                    old(state).hero_base.buildings@[k],
                    #[trigger] final(state).hero_base.buildings@[k],
                    old(state).entities@,
                    game_data.spawn_triggers@,
                    dt_ms,
                )
            &&& placements(
                due_heroes(old(state).hero_base.buildings@, old(state).entities@, dt_ms),
                requests_view(requests@),
                *old(state),
                game_data.tiles@,
                strs(game_data.heroes@),
            )
        },
{
    if !state.hero_base.enabled {
        return Vec::new();
    }
    let ghost s0 = *state;
    let due = tick_hero_buildings(&mut state.hero_base, &state.entities, &game_data.spawn_triggers, dt_ms);
    let ghost dv = queued_view(due@);
    proof {
        lemma_due_positions_sane(s0.hero_base.buildings@, s0.entities@, dt_ms);
    }
    let mut requests: Vec<HeroSpawnRequest> = Vec::new();
    let mut taken: Vec<TilePos> = Vec::new();
    let mut i: usize = 0;
    while i < due.len()
        invariant
            i <= due@.len(),
            dv == queued_view(due@),
            dv == due_heroes(s0.hero_base.buildings@, s0.entities@, dt_ms),
            forall|k: int| 0 <= k < dv.len() ==> -0x7fff_0000 <= (#[trigger] dv[k]).1.x <= 0x7fff_0000 && -0x7fff_0000 <= dv[k].1.y <= 0x7fff_0000,
            *state == (GameState { hero_base: state.hero_base, ..s0 }),
            dungeon_wf(state.dungeon),
            taken@ == placed_positions(requests_view(requests@)),
            placements(dv.take(i as int), requests_view(requests@), s0, game_data.tiles@, strs(game_data.heroes@)),
        decreases due@.len() - i,
    {
        assert(dv.take(i + 1).drop_last() =~= dv.take(i as int));
        assert(dv[i as int] == (due@[i as int].0@, due@[i as int].1));
        proof {
            lemma_holds_str(game_data.heroes@, due@[i as int].0@);
        }
        if contains_str(&game_data.heroes, due[i].0.as_str()) {
            let pos = find_spawn_pos(state, due[i].1, game_data, &taken);
            assert(spawn_spot(state.dungeon, state.entities@, game_data.tiles@, taken@, due@[i as int].1, pos));
            let ghost before = requests@;
            requests.push(HeroSpawnRequest { hero_id: due[i].0.clone(), pos });
            taken.push(pos);
            proof {
                assert(requests_view(requests@).drop_last() =~= requests_view(before));
                assert(taken@ =~= placed_positions(requests_view(requests@)));
                assert(taken@.drop_last() =~= placed_positions(requests_view(before)));
                assert(requests_view(requests@).last() == (dv[i as int].0, pos));
            }
        }
        i = i + 1;
    }
    assert(dv.take(dv.len() as int) =~= dv);
    requests
}

/// The positions of due heroes are those of their buildings.
proof fn lemma_due_positions_sane(bs: Seq<HeroBuildingState>, es: Seq<Entity>, dt: i64)
    requires
        buildings_placed_sanely(bs),
    ensures
        forall|k: int|
            0 <= k < due_heroes(bs, es, dt).len() ==> -0x7fff_0000 <= (#[trigger] due_heroes(bs, es, dt)[k]).1.x
                <= 0x7fff_0000 && -0x7fff_0000 <= due_heroes(bs, es, dt)[k].1.y <= 0x7fff_0000,
    decreases bs.len(),
{
    if bs.len() > 0 {
        let init = bs.drop_last();
        assert(buildings_placed_sanely(init)) by {
            assert forall|k: int| 0 <= k < init.len() implies -0x7fff_0000 <= (#[trigger] init[k]).pos.x <= 0x7fff_0000
                && -0x7fff_0000 <= init[k].pos.y <= 0x7fff_0000 by {
                assert(init[k] == bs[k]);
            }
        }
        lemma_due_positions_sane(init, es, dt);
        let last = bs.last();
        assert(bs[bs.len() - 1] == last);
        let prev = due_heroes(init, es, dt);
        let tail = if building_alive(last, es) {
            fired_heroes(last.spawn_timers@, dt).map_values(|h: Seq<char>| (h, last.pos))
        } else {
            Seq::empty()
        };
        let all = due_heroes(bs, es, dt);
        assert(all == prev + tail);
        assert forall|k: int| 0 <= k < all.len() implies -0x7fff_0000 <= (#[trigger] all[k]).1.x <= 0x7fff_0000
            && -0x7fff_0000 <= all[k].1.y <= 0x7fff_0000 by {
            if k < prev.len() {
                assert(all[k] == prev[k]);
            } else {
                assert(all[k] == tail[k - prev.len()]);
                assert(tail[k - prev.len()].1 == last.pos);
            }
        }
    }
}

} // verus!
