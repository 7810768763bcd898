//! The scenario event engine: action points reached by entities, scripted
//! events whose triggers hold, and the actions they run. Spawning creatures
//! and hero parties and completing research are handed back to the caller,
//! which owns the monster, hero and technology data.
use vstd::prelude::*;
use crate::tiles::{TilePos, TileState, OwnerId, FogState, manhattan, str_eq};
use crate::grid::{cells, in_bounds};
use crate::world::{GameState, Entity, EntityType, Dungeon, same_but_grid, dungeon_wf, on_grid, tile_at};
use crate::campaign::{strs, contains_str};
use crate::data::GameData;
use crate::scenario::{
    ActionPointDefinition, EventAction, EventTrigger, RuleValue, RuntimeView, ScenarioDefinition,
    ScenarioEvent, ScenarioRuntime, lemma_holds_str, list_texts, pairs_view, rule_accepts,
    with_name, with_pair, with_rule, add_name,
};

verus! {

/// `e` reaches the action point.
pub open spec fn reaches(point: ActionPointDefinition, e: Entity) -> bool {
    &&& match point.owner {
        Some(o) => e.owner == o,
        None => true,
    }
    &&& manhattan(e.pos, TilePos { x: point.x, y: point.y }) <= if point.radius >= 0 {
        point.radius as int
    } else {
        0
    }
}

/// The (point, owner) pairs for the entities of `es` that reach the point.
pub open spec fn reached_by(point: ActionPointDefinition, es: Seq<Entity>) -> Seq<(Seq<char>, OwnerId)>
    decreases es.len(),
{
    if es.len() == 0 {
        Seq::empty()
    } else {
        reached_by(point, es.drop_last()) + if reaches(point, es.last()) {
            seq![(point.id@, es.last().owner)]
        } else {
            Seq::empty()
        }
    }
}

/// The (point, owner) pairs for every point in turn.
pub open spec fn reached_all(points: Seq<ActionPointDefinition>, es: Seq<Entity>) -> Seq<(Seq<char>, OwnerId)>
    decreases points.len(),
{
    if points.len() == 0 {
        Seq::empty()
    } else {
        reached_all(points.drop_last(), es) + reached_by(points.last(), es)
    }
}

/// The action points reached by entities, as (point id, owner of the entity)
/// pairs: for each point in turn, each entity in turn that is within the
/// point's radius (of the point's owner, when it names one).
pub fn action_points_reached(state: &GameState, action_points: &Vec<ActionPointDefinition>) -> (r: Vec<
    (String, OwnerId),
>)
    ensures
        pairs_view(r@) == reached_all(action_points@, state.entities@),
{
    let mut reached: Vec<(String, OwnerId)> = Vec::new();
    let mut k: usize = 0;
    while k < action_points.len()
        invariant
            k <= action_points@.len(),
            pairs_view(reached@) == reached_all(action_points@.take(k as int), state.entities@),
        decreases action_points@.len() - k,
    {
        assert(action_points@.take(k + 1).drop_last() =~= action_points@.take(k as int));
        let point = &action_points[k];
        let center = TilePos::new(point.x, point.y);
        let radius: i64 = if point.radius >= 0 {
            point.radius as i64
        } else {
            0
        };
        let ghost base = pairs_view(reached@);
        let mut i: usize = 0;
        while i < state.entities.len()
            invariant
                k < action_points@.len(),
                point == &action_points@[k as int],
                center == (TilePos { x: point.x, y: point.y }),
                radius == if point.radius >= 0 {
                    point.radius as int
                } else {
                    0
                },
                i <= state.entities@.len(),
                pairs_view(reached@) == base + reached_by(*point, state.entities@.take(i as int)),
            decreases state.entities@.len() - i,
        {
            assert(state.entities@.take(i + 1).drop_last() =~= state.entities@.take(i as int));
            let entity = &state.entities[i];
            let owner_ok = match point.owner {
                Some(o) => entity.owner == o,
                None => true,
            };
            if owner_ok && entity.pos.manhattan_distance(&center) <= radius {
                let ghost before = reached@;
                reached.push((point.id.clone(), entity.owner));
                assert(pairs_view(reached@) =~= pairs_view(before) + seq![(point.id@, entity.owner)]);
            }
            i = i + 1;
        }
        assert(state.entities@.take(state.entities@.len() as int) =~= state.entities@);
        i = 0;
        k = k + 1;
    }
    assert(action_points@.take(action_points@.len() as int) =~= action_points@);
    reached
}

/// `b` is the tile `a` made visible.
pub open spec fn revealed(a: TileState, b: TileState) -> bool {
    &&& b.fog_state == FogState::Visible
    &&& b.tile_type == a.tile_type
    &&& b.pos == a.pos
    &&& b.ownership == a.ownership
    &&& b.owner == a.owner
    &&& b.marked_for_dig == a.marked_for_dig
    &&& b.resources_remaining == a.resources_remaining
    &&& b.room_id == a.room_id
}

/// Lift the fog of war from every tile.
pub fn reveal_all_tiles(state: &mut GameState)
    ensures
        same_but_grid(*old(state), *final(state)),
        cells(&final(state).dungeon.grid) == reveal_grid(cells(&old(state).dungeon.grid)),
        dungeon_wf(old(state).dungeon) ==> dungeon_wf(final(state).dungeon),
{
    let ghost s0 = *state;
    let ghost g0 = cells(&state.dungeon.grid);
    let mut y: usize = 0;
    while y < state.dungeon.grid.len()
        invariant
            g0 == cells(&s0.dungeon.grid),
            same_but_grid(s0, *state),
            y <= g0.len(),
            cells(&state.dungeon.grid).len() == g0.len(),
            forall|yy: int|
                0 <= yy < g0.len() ==> #[trigger] cells(&state.dungeon.grid)[yy].len() == g0[yy].len(),
            forall|yy: int, x: int|
                #![trigger cells(&state.dungeon.grid)[yy][x]]
                0 <= yy < y && 0 <= x < g0[yy].len() ==> revealed(
                    g0[yy][x],
                    cells(&state.dungeon.grid)[yy][x],
                ),
            forall|yy: int, x: int|
                #![trigger cells(&state.dungeon.grid)[yy][x]]
                y <= yy < g0.len() && 0 <= x < g0[yy].len() ==> cells(&state.dungeon.grid)[yy][x]
                    == g0[yy][x],
        decreases g0.len() - y,
    {
        let mut x: usize = 0;
        while x < state.dungeon.grid[y].len()
            invariant
                g0 == cells(&s0.dungeon.grid),
                same_but_grid(s0, *state),
                y < g0.len(),
                x <= g0[y as int].len(),
                cells(&state.dungeon.grid).len() == g0.len(),
                forall|yy: int|
                    0 <= yy < g0.len() ==> #[trigger] cells(&state.dungeon.grid)[yy].len()
                        == g0[yy].len(),
                forall|yy: int, xx: int|
                    #![trigger cells(&state.dungeon.grid)[yy][xx]]
                    0 <= yy < g0.len() && 0 <= xx < g0[yy].len() ==> if yy < y || (yy == y && xx
                        < x) {
                        revealed(g0[yy][xx], cells(&state.dungeon.grid)[yy][xx])
                    } else {
                        cells(&state.dungeon.grid)[yy][xx] == g0[yy][xx]
                    },
            decreases g0[y as int].len() - x,
        {
            let ghost before = cells(&state.dungeon.grid);
            assert(before[y as int] == state.dungeon.grid@[y as int]@);
            assert(before[y as int][x as int] == g0[y as int][x as int]);
            state.dungeon.grid[y][x].fog_state = FogState::Visible;
            proof {
                let after = cells(&state.dungeon.grid);
                assert(after.len() == before.len());
                assert forall|yy: int| 0 <= yy < g0.len() implies #[trigger] after[yy].len()
                    == g0[yy].len() by {
                    if yy == y {
                        assert(after[yy] =~= before[yy].update(x as int, after[yy][x as int]));
                    } else {
                        assert(after[yy] == before[yy]);
                    }
                }
                assert forall|yy: int, xx: int|
                    #![trigger after[yy][xx]]
                    0 <= yy < g0.len() && 0 <= xx < g0[yy].len() && !(yy == y && xx == x) implies after[yy][xx] == before[yy][xx] by {
                    if yy == y {
                        assert(after[yy] =~= before[yy].update(x as int, after[yy][x as int]));
                    } else {
                        assert(after[yy] == before[yy]);
                    }
                }
                assert(after[y as int][x as int] == state.dungeon.grid@[y as int]@[x as int]);
                assert(revealed(g0[y as int][x as int], after[y as int][x as int]));
                assert forall|yy: int, xx: int|
                    #![trigger after[yy][xx]]
                    0 <= yy < g0.len() && 0 <= xx < g0[yy].len() implies if yy < y || (yy == y && xx
                        < x + 1) {
                        revealed(g0[yy][xx], after[yy][xx])
                    } else {
                        after[yy][xx] == g0[yy][xx]
                    } by {
                    if !(yy == y && xx == x) {
                        assert(after[yy][xx] == before[yy][xx]);
                    }
                }
            }
            x = x + 1;
        }
        y = y + 1;
    }
    proof {
        let g1 = cells(&state.dungeon.grid);
        assert forall|yy: int| 0 <= yy < g0.len() implies #[trigger] g1[yy] =~= reveal_grid(g0)[yy] by {
            assert forall|xx: int| 0 <= xx < g0[yy].len() implies g1[yy][xx] == reveal_grid(g0)[yy][xx] by {
                assert(revealed(g0[yy][xx], g1[yy][xx]));
            }
        }
        assert(g1 =~= reveal_grid(g0));
        if dungeon_wf(s0.dungeon) {
            assert forall|yy: int| 0 <= yy < g1.len() implies #[trigger] g1[yy].len() == g1[0].len() by {
                assert(g0[yy].len() == g0[0].len());
            }
            assert forall|xx: int, yy: int| #![trigger g1[yy][xx]] in_bounds(g1, xx, yy)
                implies g1[yy][xx].pos == (TilePos { x: xx as i32, y: yy as i32 }) by {
                assert(g1[yy][xx].pos == g0[yy][xx].pos);
                assert(in_bounds(g0, xx, yy));
            }
        }
    }
}

/// Work that a scripted event leaves to the caller.
#[derive(Debug)]
pub enum ScenarioRequest {
    SpawnCreature { creature: String, owner: OwnerId, pos: TilePos, level: u32 },
    SpawnHeroParty { party: String, pos: TilePos },
    CompleteResearch { tech: String },
}

/// The contents of a request.
pub enum RequestView {
    SpawnCreature { creature: Seq<char>, owner: OwnerId, pos: TilePos, level: u32 },
    SpawnHeroParty { party: Seq<char>, pos: TilePos },
    CompleteResearch { tech: Seq<char> },
}

impl View for ScenarioRequest {
    type V = RequestView;

    open spec fn view(&self) -> RequestView {
        match self {
            ScenarioRequest::SpawnCreature { creature, owner, pos, level } => RequestView::SpawnCreature {
                creature: creature@,
                owner: *owner,
                pos: *pos,
                level: *level,
            },
            ScenarioRequest::SpawnHeroParty { party, pos } => RequestView::SpawnHeroParty {
                party: party@,
                pos: *pos,
            },
            ScenarioRequest::CompleteResearch { tech } => RequestView::CompleteResearch { tech: tech@ },
        }
    }
}

/// The contents of a list of requests.
pub open spec fn requests_view(v: Seq<ScenarioRequest>) -> Seq<RequestView> {
    v.map_values(|r: ScenarioRequest| r@)
}

/// The parts of the game state that scripted events change: the scenario
/// record, the player's unlocks, the fog setting and the tiles.
pub struct EventWorld {
    pub runtime: Option<RuntimeView>,
    pub rooms: Seq<Seq<char>>,
    pub spells: Seq<Seq<char>>,
    pub traps: Seq<Seq<char>>,
    pub fog_enabled: bool,
    pub grid: Seq<Seq<TileState>>,
}

/// The contents of an optional scenario record.
pub open spec fn runtime_view(r: Option<ScenarioRuntime>) -> Option<RuntimeView> {
    match r {
        Some(x) => Some(x@),
        None => None,
    }
}

/// The parts of `s` that scripted events change.
pub open spec fn world_of(s: GameState) -> EventWorld {
    EventWorld {
        runtime: runtime_view(s.scenario_runtime),
        rooms: strs(s.unlocks.rooms@),
        spells: strs(s.unlocks.spells@),
        traps: strs(s.unlocks.traps@),
        fog_enabled: s.cheat_fog_enabled,
        grid: cells(&s.dungeon.grid),
    }
}

/// `b` agrees with `a` in everything that scripted events leave alone.
pub open spec fn same_outside_events(a: GameState, b: GameState) -> bool {
    b == GameState {
        scenario_runtime: b.scenario_runtime,
        unlocks: b.unlocks,
        cheat_fog_enabled: b.cheat_fog_enabled,
        dungeon: Dungeon { grid: b.dungeon.grid, ..a.dungeon },
        ..a
    }
}

/// Every tile of `g` made visible.
pub open spec fn reveal_grid(g: Seq<Seq<TileState>>) -> Seq<Seq<TileState>> {
    Seq::new(
        g.len(),
        |y: int| Seq::new(g[y].len(), |x: int| TileState { fog_state: FogState::Visible, ..g[y][x] }),
    )
}

/// The record, when there is one, changed by `f`.
pub open spec fn map_runtime(rv: Option<RuntimeView>, f: spec_fn(RuntimeView) -> RuntimeView) -> Option<RuntimeView> {
    match rv {
        Some(r) => Some(f(r)),
        None => None,
    }
}

/// A research request for each of `names` that the game knows, in order.
pub open spec fn research_requests(names: Seq<Seq<char>>, techs: Seq<Seq<char>>) -> Seq<RequestView>
    decreases names.len(),
{
    if names.len() == 0 {
        Seq::empty()
    } else {
        research_requests(names.drop_last(), techs) + if techs.contains(names.last()) {
            seq![RequestView::CompleteResearch { tech: names.last() }]
        } else {
            Seq::empty()
        }
    }
}

/// What setting the rule `key` to `value` does: nothing without a scenario
/// record or for a rule that does not accept the value; else the rule is
/// recorded, fog of war switched off lifts the fog from every tile, switched
/// on brings the fog back, and a list of starting research completes each
/// technology of it that the game knows.
pub open spec fn rule_effect(w: EventWorld, key: Seq<char>, value: RuleValue, techs: Seq<Seq<char>>) -> (EventWorld, Seq<RequestView>) {
    match w.runtime {
        None => (w, Seq::empty()),
        Some(r) => if !rule_accepts(key, value) {
            (w, Seq::empty())
        } else {
            let w1 = EventWorld { runtime: Some(with_rule(r, key, value)), ..w };
            match value {
                RuleValue::Bool(b) => if b {
                    (EventWorld { fog_enabled: true, ..w1 }, Seq::empty())
                } else {
                    (EventWorld { fog_enabled: false, grid: reveal_grid(w.grid), ..w1 }, Seq::empty())
                },
                RuleValue::List(items) => (w1, research_requests(list_texts(items@), techs)),
                _ => (w1, Seq::empty()),
            }
        },
    }
}

/// What one action does. `monsters`, `parties` and `techs` are the monsters
/// the game knows, the hero parties of the scenario and the technologies the
/// game knows. Unlocks go to the scenario record and, for the player, to the
/// player's unlocks; creatures the game knows and parties of the scenario are
/// requested to spawn.
pub open spec fn action_effect(
    w: EventWorld,
    a: EventAction,
    monsters: Seq<Seq<char>>,
    parties: Seq<Seq<char>>,
    techs: Seq<Seq<char>>,
) -> (EventWorld, Seq<RequestView>) {
    match a {
        EventAction::UnlockRoom { room, owner } => (
            EventWorld {
                rooms: if owner == OwnerId::Player {
                    with_name(w.rooms, room@)
                } else {
                    w.rooms
                },
                runtime: map_runtime(w.runtime, |r: RuntimeView| RuntimeView { rooms: with_name(r.rooms, room@), ..r }),
                ..w
            },
            Seq::empty(),
        ),
        EventAction::UnlockSpell { spell, owner } => (
            EventWorld {
                spells: if owner == OwnerId::Player {
                    with_name(w.spells, spell@)
                } else {
                    w.spells
                },
                runtime: map_runtime(w.runtime, |r: RuntimeView| RuntimeView { spells: with_name(r.spells, spell@), ..r }),
                ..w
            },
            Seq::empty(),
        ),
        EventAction::UnlockTrap { trap, owner } => (
            EventWorld {
                traps: if owner == OwnerId::Player {
                    with_name(w.traps, trap@)
                } else {
                    w.traps
                },
                runtime: map_runtime(w.runtime, |r: RuntimeView| RuntimeView { traps: with_name(r.traps, trap@), ..r }),
                ..w
            },
            Seq::empty(),
        ),
        EventAction::SpawnCreature { creature, owner, x, y, level } => (
            w,
            if monsters.contains(creature@) {
                seq![RequestView::SpawnCreature { creature: creature@, owner, pos: TilePos { x, y }, level }]
            } else {
                Seq::empty()
            },
        ),
        EventAction::SpawnHeroParty { party, x, y } => (
            w,
            if parties.contains(party@) {
                seq![RequestView::SpawnHeroParty { party: party@, pos: TilePos { x, y } }]
            } else {
                Seq::empty()
            },
        ),
        EventAction::SetRule { key, value } => rule_effect(w, key@, value, techs),
        EventAction::CompleteObjective { objective } => (
            EventWorld {
                runtime: map_runtime(
                    w.runtime,
                    |r: RuntimeView| RuntimeView { completed: with_name(r.completed, objective@), ..r },
                ),
                ..w
            },
            Seq::empty(),
        ),
    }
}

/// What a run of actions does, in order.
pub open spec fn actions_effect(
    w: EventWorld,
    acts: Seq<EventAction>,
    monsters: Seq<Seq<char>>,
    parties: Seq<Seq<char>>,
    techs: Seq<Seq<char>>,
) -> (EventWorld, Seq<RequestView>)
    decreases acts.len(),
{
    if acts.len() == 0 {
        (w, Seq::empty())
    } else {
        let p = actions_effect(w, acts.drop_last(), monsters, parties, techs);
        let q = action_effect(p.0, acts.last(), monsters, parties, techs);
        (q.0, p.1 + q.1)
    }
}

/// Firing an event: its actions run, then it is recorded as fired.
pub open spec fn fire_effect(
    w: EventWorld,
    e: ScenarioEvent,
    monsters: Seq<Seq<char>>,
    parties: Seq<Seq<char>>,
    techs: Seq<Seq<char>>,
) -> (EventWorld, Seq<RequestView>) {
    let p = actions_effect(w, e.actions@, monsters, parties, techs);
    (
        EventWorld {
            runtime: map_runtime(p.0.runtime, |r: RuntimeView| RuntimeView { fired: with_name(r.fired, e.id@), ..r }),
            ..p.0
        },
        p.1,
    )
}

/// The event with id `id` is recorded as fired.
pub open spec fn fired_in(rv: Option<RuntimeView>, id: Seq<char>) -> bool {
    match rv {
        Some(r) => r.fired.contains(id),
        None => false,
    }
}

/// The trigger holds in the state `s` with the scenario record `rv`: the
/// time has come, the objective is complete, the player has a room of the
/// type, the owner has reached the action point, or a hero stands on a tile
/// of the owner.
pub open spec fn trigger_holds(t: EventTrigger, s: GameState, rv: Option<RuntimeView>) -> bool {
    match t {
        EventTrigger::TimeElapsed { ms } => s.time_elapsed_ms >= ms,
        EventTrigger::ObjectiveComplete { objective } => match rv {
            Some(r) => r.completed.contains(objective@),
            None => false,
        },
        EventTrigger::RoomClaimed { room, owner } => owner == OwnerId::Player && exists|i: int|
            0 <= i < s.rooms@.len() && (#[trigger] s.rooms@[i]).room_type@ == room@,
        EventTrigger::ActionPointReached { id, owner } => match rv {
            Some(r) => r.reached.contains((id@, owner)),
            None => false,
        },
        EventTrigger::DungeonBreached { owner } => exists|i: int|
            0 <= i < s.entities@.len() && (#[trigger] s.entities@[i]).entity_type is Hero && on_grid(
                s.dungeon,
                s.entities@[i].pos,
            ) && tile_at(s.dungeon, s.entities@[i].pos).owner == owner,
    }
}

/// The event is due: its trigger holds, and it is not a once-only event
/// that has already fired.
pub open spec fn event_ready(e: ScenarioEvent, s: GameState, rv: Option<RuntimeView>) -> bool {
    (!e.once || !fired_in(rv, e.id@)) && trigger_holds(e.trigger, s, rv)
}

/// Firing, in order, the events of `evs` that are due in `(s, rv)`.
pub open spec fn fire_ready(
    w: EventWorld,
    evs: Seq<ScenarioEvent>,
    s: GameState,
    rv: Option<RuntimeView>,
    monsters: Seq<Seq<char>>,
    parties: Seq<Seq<char>>,
    techs: Seq<Seq<char>>,
) -> (EventWorld, Seq<RequestView>)
    decreases evs.len(),
{
    if evs.len() == 0 {
        (w, Seq::empty())
    } else {
        let p = fire_ready(w, evs.drop_last(), s, rv, monsters, parties, techs);
        if event_ready(evs.last(), s, rv) {
            let q = fire_effect(p.0, evs.last(), monsters, parties, techs);
            (q.0, p.1 + q.1)
        } else {
            p
        }
    }
}

/// `v` with each pair of `ps` added in turn.
pub open spec fn with_pairs(v: Seq<(Seq<char>, OwnerId)>, ps: Seq<(Seq<char>, OwnerId)>) -> Seq<(Seq<char>, OwnerId)>
    decreases ps.len(),
{
    if ps.len() == 0 {
        v
    } else {
        with_pair(with_pairs(v, ps.drop_last()), ps.last())
    }
}

/// The scenario record once the action points reached by the entities `es`
/// are recorded (nothing changes for a scenario without action points).
pub open spec fn runtime_after_points(
    rv: Option<RuntimeView>,
    points: Seq<ActionPointDefinition>,
    es: Seq<Entity>,
) -> Option<RuntimeView> {
    if points.len() == 0 {
        rv
    } else {
        map_runtime(rv, |r: RuntimeView| RuntimeView { reached: with_pairs(r.reached, reached_all(points, es)), ..r })
    }
}

/// `i` is the index of the first scenario with the id `id`.
pub open spec fn first_scenario(scs: Seq<ScenarioDefinition>, id: Seq<char>, i: int) -> bool {
    &&& 0 <= i < scs.len()
    &&& scs[i].id@ == id
    &&& forall|j: int| 0 <= j < i ==> (#[trigger] scs[j]).id@ != id
}

/// The scenario being played: the first one in the game data whose id is
/// the state's active scenario id.
pub open spec fn active_scenario(d: GameData, s: GameState) -> Option<ScenarioDefinition> {
    match s.active_scenario_id {
        None => None,
        Some(id) => if exists|i: int| first_scenario(d.scenarios@, id@, i) {
            Some(d.scenarios@[choose|i: int| first_scenario(d.scenarios@, id@, i)])
        } else {
            None
        },
    }
}

/// The index of the first scenario with the id `id`, if there is one.
pub fn find_scenario(scenarios: &Vec<ScenarioDefinition>, id: &str) -> (r: Option<usize>)
    ensures
        match r {
            Some(i) => first_scenario(scenarios@, id@, i as int),
            None => forall|j: int| 0 <= j < scenarios@.len() ==> (#[trigger] scenarios@[j]).id@ != id@,
        },
{
    let mut i: usize = 0;
    while i < scenarios.len()
        invariant
            i <= scenarios@.len(),
            forall|j: int| 0 <= j < i ==> (#[trigger] scenarios@[j]).id@ != id@,
        decreases scenarios@.len() - i,
    {
        if str_eq(scenarios[i].id.as_str(), id) {
            return Some(i);
        }
        i = i + 1;
    }
    None
}

/// There is at most one first scenario with a given id.
pub proof fn lemma_first_scenario_unique(scs: Seq<ScenarioDefinition>, id: Seq<char>, i: int, j: int)
    requires
        first_scenario(scs, id, i),
        first_scenario(scs, id, j),
    ensures
        i == j,
{
    if i < j {
        assert(scs[i].id@ != id);
    }
    if j < i {
        assert(scs[j].id@ != id);
    }
}

/// Add each pair in turn to the record's reached action points.
fn mark_pairs(runtime: &mut ScenarioRuntime, pairs: &Vec<(String, OwnerId)>)
    ensures
        final(runtime)@ == (RuntimeView { reached: with_pairs(old(runtime)@.reached, pairs_view(pairs@)), ..old(runtime)@ }),
{
    let ghost r0 = runtime@;
    let mut i: usize = 0;
    while i < pairs.len()
        invariant
            i <= pairs@.len(),
            runtime@ == (RuntimeView { reached: with_pairs(r0.reached, pairs_view(pairs@).take(i as int)), ..r0 }),
        decreases pairs@.len() - i,
    {
        assert(pairs_view(pairs@).take(i + 1).drop_last() =~= pairs_view(pairs@).take(i as int));
        runtime.mark_action_point_reached(pairs[i].0.as_str(), pairs[i].1);
        i = i + 1;
    }
    assert(pairs_view(pairs@).take(pairs@.len() as int) =~= pairs_view(pairs@));
}

/// Record the action points of the scenario that entities have reached.
pub fn update_action_points(state: &mut GameState, scenario: &ScenarioDefinition)
    ensures
        *final(state) == (GameState { scenario_runtime: final(state).scenario_runtime, ..*old(state) }),
        runtime_view(final(state).scenario_runtime) == runtime_after_points(
            runtime_view(old(state).scenario_runtime),
            scenario.action_points@,
            old(state).entities@,
        ),
{
    if scenario.action_points.len() == 0 {
        return;
    }
    let reached = action_points_reached(state, &scenario.action_points);
    match &mut state.scenario_runtime {
        Some(runtime) => {
            mark_pairs(runtime, &reached);
        },
        None => {},
    }
}

/// Whether the event's trigger holds now.
pub fn trigger_matches(event: &ScenarioEvent, state: &GameState) -> (r: bool)
    requires
        dungeon_wf(state.dungeon),
    ensures
        r == trigger_holds(event.trigger, *state, runtime_view(state.scenario_runtime)),
{
    match &event.trigger {
        EventTrigger::TimeElapsed { ms } => state.time_elapsed_ms >= *ms,
        EventTrigger::ObjectiveComplete { objective } => match &state.scenario_runtime {
            Some(runtime) => {
                proof {
                    lemma_holds_str(runtime.completed_objectives@, objective@);
                }
                contains_str(&runtime.completed_objectives, objective.as_str())
            },
            None => false,
        },
        EventTrigger::RoomClaimed { room, owner } => {
            if !owner.is_player_controlled() {
                return false;
            }
            let mut i: usize = 0;
            while i < state.rooms.len()
                invariant
                    event.trigger == (EventTrigger::RoomClaimed { room: *room, owner: *owner }),
                    *owner == OwnerId::Player,
                    i <= state.rooms@.len(),
                    forall|k: int| 0 <= k < i ==> (#[trigger] state.rooms@[k]).room_type@ != room@,
                decreases state.rooms@.len() - i,
            {
                if str_eq(state.rooms[i].room_type.as_str(), room.as_str()) {
                    assert(state.rooms@[i as int].room_type@ == room@);
                    return true;
                }
                i = i + 1;
            }
            false
        },
        EventTrigger::ActionPointReached { id, owner } => match &state.scenario_runtime {
            Some(runtime) => runtime.action_point_reached(id.as_str(), owner),
            None => false,
        },
        EventTrigger::DungeonBreached { owner } => {
            let mut i: usize = 0;
            while i < state.entities.len()
                invariant
                    event.trigger == (EventTrigger::DungeonBreached { owner: *owner }),
                    i <= state.entities@.len(),
                    dungeon_wf(state.dungeon),
                    forall|k: int|
                        0 <= k < i ==> !((#[trigger] state.entities@[k]).entity_type is Hero && on_grid(
                            state.dungeon,
                            state.entities@[k].pos,
                        ) && tile_at(state.dungeon, state.entities@[k].pos).owner == *owner),
                decreases state.entities@.len() - i,
            {
                let entity = &state.entities[i];
                let is_hero = match &entity.entity_type {
                    EntityType::Hero(_) => true,
                    _ => false,
                };
                if is_hero {
                    match state.dungeon.get_tile(entity.pos) {
                        Some(tile) => {
                            if tile.owner == *owner {
                                assert(state.entities@[i as int].entity_type is Hero);
                                return true;
                            }
                        },
                        None => {},
                    }
                }
                i = i + 1;
            }
            false
        },
    }
}

/// The state after `s0` with `w` for the parts that events change holds
/// together with the requests made.
pub open spec fn event_step(
    s0: GameState,
    s1: GameState,
    r0: Seq<RequestView>,
    r1: Seq<RequestView>,
    out: (EventWorld, Seq<RequestView>),
) -> bool {
    &&& same_outside_events(s0, s1)
    &&& world_of(s1) == out.0
    &&& r1 == r0 + out.1
}

/// Set a scenario rule and apply what follows from it (see `rule_effect`).
fn apply_rule(
    state: &mut GameState,
    game_data: &GameData,
    key: &str,
    value: &RuleValue,
    requests: &mut Vec<ScenarioRequest>,
)
    requires
        dungeon_wf(old(state).dungeon),
    ensures
        dungeon_wf(final(state).dungeon),
        event_step(
            *old(state),
            *final(state),
            requests_view(old(requests)@),
            requests_view(final(requests)@),
            rule_effect(world_of(*old(state)), key@, *value, strs(game_data.technologies@)),
        ),
{
    let ghost w0 = world_of(*state);
    let set = match &mut state.scenario_runtime {
        Some(runtime) => runtime.set_rule(key, value),
        None => false,
    };
    if !set {
        assert(world_of(*state) == w0);
        assert(requests_view(requests@) =~= requests_view(old(requests)@) + Seq::empty());
        return;
    }
    proof {
        reveal_strlit("fog_of_war");
        reveal_strlit("starting_research");
        assert("fog_of_war"@.len() != "starting_research"@.len());
    }
    if str_eq(key, "fog_of_war") {
        match value {
            RuleValue::Bool(b) => {
                if *b {
                    state.cheat_fog_enabled = true;
                } else {
                    state.cheat_fog_enabled = false;
                    reveal_all_tiles(state);
                }
            },
            _ => {},
        }
        assert(requests_view(requests@) =~= requests_view(old(requests)@) + Seq::empty());
    } else if str_eq(key, "starting_research") {
        match value {
            RuleValue::List(items) => {
                let ghost techs = strs(game_data.technologies@);
                let ghost base = requests_view(requests@);
                let mut i: usize = 0;
                while i < items.len()
                    invariant
                        i <= items@.len(),
                        techs == strs(game_data.technologies@),
                        requests_view(requests@) == base + research_requests(list_texts(items@.take(i as int)), techs),
                    decreases items@.len() - i,
                {
                    assert(items@.take(i + 1).drop_last() =~= items@.take(i as int));
                    match &items[i] {
                        Some(t) => {
                            let ghost names = list_texts(items@.take(i as int));
                            assert(list_texts(items@.take(i + 1)) == names + seq![t@]);
                            assert((names + seq![t@]).drop_last() =~= names);
                            proof {
                                lemma_holds_str(game_data.technologies@, t@);
                            }
                            if contains_str(&game_data.technologies, t.as_str()) {
                                let ghost before = requests@;
                                requests.push(ScenarioRequest::CompleteResearch { tech: t.clone() });
                                assert(requests_view(requests@) =~= requests_view(before) + seq![
                                    RequestView::CompleteResearch { tech: t@ },
                                ]);
                            }
                        },
                        None => {
                            assert(list_texts(items@.take(i + 1)) =~= list_texts(items@.take(i as int)));
                        },
                    }
                    i = i + 1;
                }
                assert(items@.take(items@.len() as int) =~= items@);
            },
            _ => {},
        }
    } else {
        assert(requests_view(requests@) =~= requests_view(old(requests)@) + Seq::empty());
    }
}

/// Run one action of a scripted event (see `action_effect`).
fn apply_action(
    state: &mut GameState,
    game_data: &GameData,
    scenario: &ScenarioDefinition,
    action: &EventAction,
    requests: &mut Vec<ScenarioRequest>,
)
    requires
        dungeon_wf(old(state).dungeon),
    ensures
        dungeon_wf(final(state).dungeon),
        event_step(
            *old(state),
            *final(state),
            requests_view(old(requests)@),
            requests_view(final(requests)@),
            action_effect(
                world_of(*old(state)),
                *action,
                strs(game_data.monsters@),
                strs(scenario.hero_parties@),
                strs(game_data.technologies@),
            ),
        ),
{
    match action {
        EventAction::UnlockRoom { room, owner } => {
            if owner.is_player_controlled() {
                add_name(&mut state.unlocks.rooms, room.as_str());
            }
            match &mut state.scenario_runtime {
                Some(runtime) => runtime.unlock_room(room.as_str()),
                None => {},
            }
            assert(requests_view(requests@) =~= requests_view(old(requests)@) + Seq::empty());
        },
        EventAction::UnlockSpell { spell, owner } => {
            if owner.is_player_controlled() {
                add_name(&mut state.unlocks.spells, spell.as_str());
            }
            match &mut state.scenario_runtime {
                Some(runtime) => runtime.unlock_spell(spell.as_str()),
                None => {},
            }
            assert(requests_view(requests@) =~= requests_view(old(requests)@) + Seq::empty());
        },
        EventAction::UnlockTrap { trap, owner } => {
            if owner.is_player_controlled() {
                add_name(&mut state.unlocks.traps, trap.as_str());
            }
            match &mut state.scenario_runtime {
                Some(runtime) => runtime.unlock_trap(trap.as_str()),
                None => {},
            }
            assert(requests_view(requests@) =~= requests_view(old(requests)@) + Seq::empty());
        },
        EventAction::SpawnCreature { creature, owner, x, y, level } => {
            proof {
                lemma_holds_str(game_data.monsters@, creature@);
            }
            if contains_str(&game_data.monsters, creature.as_str()) {
                requests.push(
                    ScenarioRequest::SpawnCreature {
                        creature: creature.clone(),
                        owner: *owner,
                        pos: TilePos::new(*x, *y),
                        level: *level,
                    },
                );
            }
            assert(requests_view(requests@) =~= requests_view(old(requests)@) + action_effect(
                world_of(*old(state)),
                *action,
                strs(game_data.monsters@),
                strs(scenario.hero_parties@),
                strs(game_data.technologies@),
            ).1);
        },
        EventAction::SpawnHeroParty { party, x, y } => {
            proof {
                lemma_holds_str(scenario.hero_parties@, party@);
            }
            if contains_str(&scenario.hero_parties, party.as_str()) {
                requests.push(ScenarioRequest::SpawnHeroParty { party: party.clone(), pos: TilePos::new(*x, *y) });
            }
            assert(requests_view(requests@) =~= requests_view(old(requests)@) + action_effect(
                world_of(*old(state)),
                *action,
                strs(game_data.monsters@),
                strs(scenario.hero_parties@),
                strs(game_data.technologies@),
            ).1);
        },
        EventAction::SetRule { key, value } => {
            apply_rule(state, game_data, key.as_str(), value, requests);
        },
        EventAction::CompleteObjective { objective } => {
            match &mut state.scenario_runtime {
                Some(runtime) => runtime.mark_objective_complete(objective.as_str()),
                None => {},
            }
            assert(requests_view(requests@) =~= requests_view(old(requests)@) + Seq::empty());
        },
    }
}

/// Fire an event: run its actions in order, then record it as fired.
fn fire_event(
    state: &mut GameState,
    game_data: &GameData,
    scenario: &ScenarioDefinition,
    event: &ScenarioEvent,
    requests: &mut Vec<ScenarioRequest>,
)
    requires
        dungeon_wf(old(state).dungeon),
    ensures
        dungeon_wf(final(state).dungeon),
        event_step(
            *old(state),
            *final(state),
            requests_view(old(requests)@),
            requests_view(final(requests)@),
            fire_effect(
                world_of(*old(state)),
                *event,
                strs(game_data.monsters@),
                strs(scenario.hero_parties@),
                strs(game_data.technologies@),
            ),
        ),
{
    let ghost s0 = *state;
    let ghost w0 = world_of(*state);
    let ghost rq0 = requests_view(requests@);
    let ghost monsters = strs(game_data.monsters@);
    let ghost parties = strs(scenario.hero_parties@);
    let ghost techs = strs(game_data.technologies@);
    let mut i: usize = 0;
    assert(requests_view(requests@) =~= rq0 + Seq::empty());
    while i < event.actions.len()
        invariant
            i <= event.actions@.len(),
            dungeon_wf(state.dungeon),
            monsters == strs(game_data.monsters@),
            parties == strs(scenario.hero_parties@),
            techs == strs(game_data.technologies@),
            event_step(
                s0,
                *state,
                rq0,
                requests_view(requests@),
                actions_effect(w0, event.actions@.take(i as int), monsters, parties, techs),
            ),
        decreases event.actions@.len() - i,
    {
        assert(event.actions@.take(i + 1).drop_last() =~= event.actions@.take(i as int));
        let ghost p = actions_effect(w0, event.actions@.take(i as int), monsters, parties, techs);
        let ghost r_before = requests_view(requests@);
        apply_action(state, game_data, scenario, &event.actions[i], requests);
        proof {
            let q = action_effect(p.0, event.actions@[i as int], monsters, parties, techs);
            assert(requests_view(requests@) == r_before + q.1);
            assert(rq0 + p.1 + q.1 =~= rq0 + (p.1 + q.1));
        }
        i = i + 1;
    }
    assert(event.actions@.take(event.actions@.len() as int) =~= event.actions@);
    match &mut state.scenario_runtime {
        Some(runtime) => runtime.mark_event_fired(event.id.as_str()),
        None => {},
    }
}

/// Run the scripted events of the active scenario: record the action points
/// reached, then fire, in order, every event that is due (its trigger holds
/// and it is not a once-only event already fired), judged on the state
/// before any of them fires. The work left to the caller (spawning creatures
/// and hero parties, completing research) is returned in order. Nothing
/// happens without an active scenario the game knows.
pub fn update_scenario_events(state: &mut GameState, game_data: &GameData) -> (requests: Vec<ScenarioRequest>)
    requires
        dungeon_wf(old(state).dungeon),
    ensures
        dungeon_wf(final(state).dungeon),
        match active_scenario(*game_data, *old(state)) {
            None => *final(state) == *old(state) && requests@.len() == 0,
            Some(sc) => {
                let rv = runtime_after_points(
                    runtime_view(old(state).scenario_runtime),
                    sc.action_points@,
                    old(state).entities@,
                );
                let out = fire_ready(
                    EventWorld { runtime: rv, ..world_of(*old(state)) },
                    sc.events@,
                    *old(state),
                    rv,
                    strs(game_data.monsters@),
                    strs(sc.hero_parties@),
                    strs(game_data.technologies@),
                );
                &&& same_outside_events(*old(state), *final(state))
                &&& world_of(*final(state)) == out.0
                &&& requests_view(requests@) == out.1
            },
        },
{
    let ghost s0 = *state;
    let found = match &state.active_scenario_id {
        Some(id) => find_scenario(&game_data.scenarios, id.as_str()),
        None => None,
    };
    let k = match found {
        Some(k) => k,
        None => {
            proof {
                if s0.active_scenario_id is Some {
                    let id = s0.active_scenario_id->0;
                    assert(!exists|i: int| first_scenario(game_data.scenarios@, id@, i));
                }
            }
            return Vec::new();
        },
    };
    let scenario = &game_data.scenarios[k];
    proof {
        let id = s0.active_scenario_id->0;
        let c = choose|i: int| first_scenario(game_data.scenarios@, id@, i);
        lemma_first_scenario_unique(game_data.scenarios@, id@, c, k as int);
        assert(active_scenario(*game_data, s0) == Some(*scenario));
    }
    update_action_points(state, scenario);
    let ghost s_mid = *state;
    let ghost rv = runtime_view(state.scenario_runtime);
    let ghost monsters = strs(game_data.monsters@);
    let ghost parties = strs(scenario.hero_parties@);
    let ghost techs = strs(game_data.technologies@);
    let events = &scenario.events;
    let mut ready: Vec<bool> = Vec::new();
    let mut j: usize = 0;
    while j < events.len()
        invariant
            j <= events@.len(),
            *state == s_mid,
            s_mid == (GameState { scenario_runtime: s_mid.scenario_runtime, ..s0 }),
            rv == runtime_view(s_mid.scenario_runtime),
            dungeon_wf(state.dungeon),
            ready@.len() == j,
            forall|t: int| 0 <= t < j ==> #[trigger] ready@[t] == event_ready(events@[t], s0, rv),
        decreases events@.len() - j,
    {
        let event = &events[j];
        let already = match &state.scenario_runtime {
            Some(runtime) => {
                proof {
                    lemma_holds_str(runtime.fired_events@, event.id@);
                }
                contains_str(&runtime.fired_events, event.id.as_str())
            },
            None => false,
        };
        let holds = trigger_matches(event, state);
        assert(trigger_holds(event.trigger, s_mid, rv) == trigger_holds(event.trigger, s0, rv)) by {
            assert(s_mid.rooms == s0.rooms);
            assert(s_mid.entities == s0.entities);
            assert(s_mid.dungeon == s0.dungeon);
            assert(s_mid.time_elapsed_ms == s0.time_elapsed_ms);
        }
        ready.push((!event.once || !already) && holds);
        j = j + 1;
    }
    let mut requests: Vec<ScenarioRequest> = Vec::new();
    let ghost w_start = EventWorld { runtime: rv, ..world_of(s0) };
    assert(world_of(s_mid) == w_start);
    j = 0;
    assert(requests_view(requests@) =~= Seq::<RequestView>::empty() + Seq::empty());
    while j < events.len()
        invariant
            j <= events@.len(),
            ready@.len() == events@.len(),
            forall|t: int| 0 <= t < events@.len() ==> #[trigger] ready@[t] == event_ready(events@[t], s0, rv),
            events == &scenario.events,
            monsters == strs(game_data.monsters@),
            parties == strs(scenario.hero_parties@),
            techs == strs(game_data.technologies@),
            dungeon_wf(state.dungeon),
            same_outside_events(s0, s_mid),
            event_step(
                s_mid,
                *state,
                Seq::empty(),
                requests_view(requests@),
                fire_ready(w_start, events@.take(j as int), s0, rv, monsters, parties, techs),
            ),
        decreases events@.len() - j,
    {
        assert(events@.take(j + 1).drop_last() =~= events@.take(j as int));
        let ghost p = fire_ready(w_start, events@.take(j as int), s0, rv, monsters, parties, techs);
        assert(ready@[j as int] == event_ready(events@[j as int], s0, rv));
        if ready[j] {
            let ghost r_before = requests_view(requests@);
            fire_event(state, game_data, scenario, &events[j], &mut requests);
            proof {
                let q = fire_effect(p.0, events@[j as int], monsters, parties, techs);
                assert(requests_view(requests@) == r_before + q.1);
                assert(Seq::<RequestView>::empty() + p.1 + q.1 =~= Seq::<RequestView>::empty() + (p.1 + q.1));
            }
        }
        j = j + 1;
    }
    assert(events@.take(events@.len() as int) =~= events@);
    proof {
        let out = fire_ready(w_start, events@, s0, rv, monsters, parties, techs);
        assert(requests_view(requests@) =~= out.1);
    }
    requests
}

/// Actions neither add nor remove a scenario record, and leave the fired
/// events alone.
proof fn lemma_actions_keep_fired(
    w: EventWorld,
    acts: Seq<EventAction>,
    monsters: Seq<Seq<char>>,
    parties: Seq<Seq<char>>,
    techs: Seq<Seq<char>>,
)
    ensures
        (actions_effect(w, acts, monsters, parties, techs).0.runtime is Some) == (w.runtime is Some),
        w.runtime is Some ==> actions_effect(w, acts, monsters, parties, techs).0.runtime->0.fired
            == w.runtime->0.fired,
    decreases acts.len(),
{
    if acts.len() > 0 {
        lemma_actions_keep_fired(w, acts.drop_last(), monsters, parties, techs);
    }
}

/// Firing the due events keeps every event recorded as fired, and records
/// each due event as fired (when there is a scenario record).
proof fn lemma_fire_ready_records(
    w: EventWorld,
    evs: Seq<ScenarioEvent>,
    s: GameState,
    rv: Option<RuntimeView>,
    monsters: Seq<Seq<char>>,
    parties: Seq<Seq<char>>,
    techs: Seq<Seq<char>>,
)
    requires
        w.runtime is Some,
    ensures
        fire_ready(w, evs, s, rv, monsters, parties, techs).0.runtime is Some,
        forall|id: Seq<char>|
            fired_in(w.runtime, id) ==> #[trigger] fired_in(
                fire_ready(w, evs, s, rv, monsters, parties, techs).0.runtime,
                id,
            ),
        forall|k: int|
            0 <= k < evs.len() && event_ready(#[trigger] evs[k], s, rv) ==> fired_in(
                fire_ready(w, evs, s, rv, monsters, parties, techs).0.runtime,
                evs[k].id@,
            ),
    decreases evs.len(),
{
    if evs.len() > 0 {
        let init = evs.drop_last();
        lemma_fire_ready_records(w, init, s, rv, monsters, parties, techs);
        let p = fire_ready(w, init, s, rv, monsters, parties, techs);
        let e = evs.last();
        if event_ready(e, s, rv) {
            lemma_actions_keep_fired(p.0, e.actions@, monsters, parties, techs);
            let a = actions_effect(p.0, e.actions@, monsters, parties, techs).0;
            assert forall|id: Seq<char>| fired_in(p.0.runtime, id) implies #[trigger] fired_in(
                fire_effect(p.0, e, monsters, parties, techs).0.runtime,
                id,
            ) by {
                assert(with_name(a.runtime->0.fired, e.id@).contains(id)) by {
                    let i = choose|i: int| 0 <= i < a.runtime->0.fired.len() && a.runtime->0.fired[i] == id;
                    if !a.runtime->0.fired.contains(e.id@) {
                        assert(a.runtime->0.fired.push(e.id@)[i] == id);
                    }
                }
            }
            assert(fired_in(fire_effect(p.0, e, monsters, parties, techs).0.runtime, e.id@)) by {
                if !a.runtime->0.fired.contains(e.id@) {
                    assert(a.runtime->0.fired.push(e.id@)[a.runtime->0.fired.len() as int] == e.id@);
                }
            }
        }
        assert forall|k: int| 0 <= k < evs.len() && event_ready(#[trigger] evs[k], s, rv) implies fired_in(
            fire_ready(w, evs, s, rv, monsters, parties, techs).0.runtime,
            evs[k].id@,
        ) by {
            if k < evs.len() - 1 {
                assert(init[k] == evs[k]);
            }
        }
    }
}

/// A once-only event fires at most once: once it has fired in an update, it
/// is not due in any later update, whatever the state, since the scenario
/// record carries it as fired (recording reached action points does not
/// change that).
pub proof fn once_events_fire_once(
    w: EventWorld,
    evs: Seq<ScenarioEvent>,
    s: GameState,
    rv: Option<RuntimeView>,
    monsters: Seq<Seq<char>>,
    parties: Seq<Seq<char>>,
    techs: Seq<Seq<char>>,
    k: int,
    s2: GameState,
    points: Seq<ActionPointDefinition>,
    es: Seq<Entity>,
)
    requires
        w.runtime is Some,
        0 <= k < evs.len(),
        evs[k].once,
        event_ready(evs[k], s, rv),
    ensures
        !event_ready(
            evs[k],
            s2,
            runtime_after_points(fire_ready(w, evs, s, rv, monsters, parties, techs).0.runtime, points, es),
        ),
{
    lemma_fire_ready_records(w, evs, s, rv, monsters, parties, techs);
    assert(fired_in(fire_ready(w, evs, s, rv, monsters, parties, techs).0.runtime, evs[k].id@));
}

} // verus!
