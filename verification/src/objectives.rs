//! Victory and defeat: the objectives of the active scenario, whose dungeon
//! heart has fallen, the heroes' buildings, and ending the game (which
//! completes the active campaign mission on a victory).
use vstd::prelude::*;
use crate::tiles::{OwnerId, TileState, str_eq, owned};
use crate::grid::cells;
use crate::world::{GameState, Entity, EntityType, Notice, NoticeLevel, base_defeated};
use crate::campaign::{CampaignDefinition, CampaignProgress, strs, contains_str, completion, progress_wf, find_campaign};
use crate::data::GameData;
use crate::scenario::{ScenarioObjective, RuntimeView, objective_id_of, with_name, lemma_holds_str};
use crate::scenario_events::{active_scenario, first_scenario, find_scenario, lemma_first_scenario_unique, runtime_view, map_runtime};

verus! {

/// `e` is a dungeon heart building of `owner`.
pub open spec fn heart_of(e: Entity, owner: OwnerId) -> bool {
    &&& e.owner == owner
    &&& match e.entity_type {
        EntityType::Structure(s) => s.building_id@ == "dungeon_heart"@,
        _ => false,
    }
}

/// The heart of `owner` has fallen: for the player, the heart's health ran
/// out; for anyone else, it has heart buildings and none of them is alive.
pub open spec fn heart_destroyed(state: GameState, owner: OwnerId) -> bool {
    if owner == OwnerId::Player {
        state.dungeon_heart_health <= 0
    } else {
        &&& exists|i: int| 0 <= i < state.entities@.len() && heart_of(#[trigger] state.entities@[i], owner)
        &&& forall|i: int|
            0 <= i < state.entities@.len() && heart_of(#[trigger] state.entities@[i], owner)
                ==> state.entities@[i].health <= 0
    }
}

/// Whether the dungeon heart of `owner` has been destroyed.
pub fn owner_heart_destroyed(owner: &OwnerId, state: &GameState) -> (r: bool)
    ensures
        r == heart_destroyed(*state, *owner),
{
    if owner.is_player_controlled() {
        return state.dungeon_heart_health <= 0;
    }
    let mut saw_heart = false;
    let mut i: usize = 0;
    while i < state.entities.len()
        invariant
            *owner != OwnerId::Player,
            i <= state.entities@.len(),
            saw_heart == exists|j: int| 0 <= j < i && heart_of(#[trigger] state.entities@[j], *owner),
            forall|j: int|
                0 <= j < i && heart_of(#[trigger] state.entities@[j], *owner) ==> state.entities@[j].health
                    <= 0,
        decreases state.entities@.len() - i,
    {
        let entity = &state.entities[i];
        let is_heart = entity.owner == *owner && match &entity.entity_type {
            EntityType::Structure(s) => str_eq(s.building_id.as_str(), "dungeon_heart"),
            _ => false,
        };
        assert(is_heart == heart_of(state.entities@[i as int], *owner));
        if is_heart {
            if entity.is_alive() {
                return false;
            }
            saw_heart = true;
        }
        i = i + 1;
    }
    saw_heart
}

/// The amount of a named resource the player holds (none for unknown names).
pub open spec fn resource_amount(state: GameState, resource: Seq<char>) -> i32 {
    if resource == "gold"@ {
        state.player.gold
    } else if resource == "mana"@ {
        state.player.mana
    } else if resource == "food"@ {
        state.player.food
    } else if resource == "materials"@ {
        state.player.materials
    } else {
        0
    }
}

/// How much of the named resource the player holds.
pub fn current_resource_amount(state: &GameState, resource: &str) -> (r: i32)
    ensures
        r == resource_amount(*state, resource@),
{
    if str_eq(resource, "gold") {
        state.player.gold
    } else if str_eq(resource, "mana") {
        state.player.mana
    } else if str_eq(resource, "food") {
        state.player.food
    } else if str_eq(resource, "materials") {
        state.player.materials
    } else {
        0
    }
}

/// `b` is `a` with the game over, won or lost as `victory` says, and one
/// more message for the player.
pub open spec fn ended(a: GameState, b: GameState, victory: bool, level: NoticeLevel, message: Seq<char>) -> bool {
    &&& b == GameState { game_over: true, victory: victory, notifications: b.notifications, ..a }
    &&& b.notifications@.len() == a.notifications@.len() + 1
    &&& b.notifications@.drop_last() == a.notifications@
    &&& b.notifications@.last().level == level
    &&& b.notifications@.last().message@ == message
}

/// End the game in victory, telling the player so.
pub fn set_victory(state: &mut GameState, message: &str)
    ensures
        ended(*old(state), *final(state), true, NoticeLevel::Success, message@),
{
    state.game_over = true;
    state.victory = true;
    state.notifications.push(Notice { level: NoticeLevel::Success, message: owned(message) });
    assert(state.notifications@.drop_last() =~= old(state).notifications@);
}

/// End the game in defeat, telling the player so.
pub fn set_defeat(state: &mut GameState, message: &str)
    ensures
        ended(*old(state), *final(state), false, NoticeLevel::Danger, message@),
{
    state.game_over = true;
    state.victory = false;
    state.notifications.push(Notice { level: NoticeLevel::Danger, message: owned(message) });
    assert(state.notifications@.drop_last() =~= old(state).notifications@);
}

/// `e` is a standing hero building: an entity of the heroes that is a
/// structure of one of the hero building kinds `kinds`, with health left.
pub open spec fn live_hero_building(e: Entity, kinds: Seq<Seq<char>>) -> bool {
    &&& e.owner == OwnerId::Heroes
    &&& match e.entity_type {
        EntityType::Structure(st) => kinds.contains(st.building_id@) && st.health > 0,
        _ => false,
    }
}

/// `t` is a tile of a hero building placed on the map for the heroes.
pub open spec fn hero_building_tile(t: TileState, kinds: Seq<Seq<char>>) -> bool {
    kinds.contains(t.tile_type@) && t.owner == OwnerId::Heroes
}

/// The map holds a tile of a hero building of the heroes.
pub open spec fn has_hero_building_tiles(g: Seq<Seq<TileState>>, kinds: Seq<Seq<char>>) -> bool {
    exists|y: int, x: int| 0 <= y < g.len() && 0 <= x < g[y].len() && #[trigger] hero_building_tile(g[y][x], kinds)
}

/// All hero buildings are destroyed: with a heroes' town, the town is
/// defeated; without one, the map has hero building tiles and no hero
/// building entity stands.
pub open spec fn hero_buildings_gone(s: GameState, kinds: Seq<Seq<char>>) -> bool {
    if s.hero_base.enabled {
        base_defeated(s.hero_base, s.entities@)
    } else {
        &&& !exists|i: int| 0 <= i < s.entities@.len() && live_hero_building(#[trigger] s.entities@[i], kinds)
        &&& has_hero_building_tiles(cells(&s.dungeon.grid), kinds)
    }
}

/// Whether the map holds a tile of a hero building of the heroes.
fn has_authored_hero_building_tiles(state: &GameState, game_data: &GameData) -> (r: bool)
    ensures
        r == has_hero_building_tiles(cells(&state.dungeon.grid), strs(game_data.hero_buildings@)),
{
    let ghost g = cells(&state.dungeon.grid);
    let ghost kinds = strs(game_data.hero_buildings@);
    let mut y: usize = 0;
    while y < state.dungeon.grid.len()
        invariant
            g == cells(&state.dungeon.grid),
            kinds == strs(game_data.hero_buildings@),
            y <= g.len(),
            forall|yy: int, x: int| 0 <= yy < y && 0 <= x < g[yy].len() ==> !#[trigger] hero_building_tile(g[yy][x], kinds),
        decreases g.len() - y,
    {
        let mut x: usize = 0;
        while x < state.dungeon.grid[y].len()
            invariant
                g == cells(&state.dungeon.grid),
                kinds == strs(game_data.hero_buildings@),
                y < g.len(),
                x <= g[y as int].len(),
                forall|yy: int, xx: int|
                    (0 <= yy < y && 0 <= xx < g[yy].len()) || (yy == y && 0 <= xx < x) ==> !#[trigger] hero_building_tile(g[yy][xx], kinds),
            decreases g[y as int].len() - x,
        {
            let tile = &state.dungeon.grid[y][x];
            assert(*tile == g[y as int][x as int]);
            proof {
                lemma_holds_str(game_data.hero_buildings@, tile.tile_type@);
            }
            if contains_str(&game_data.hero_buildings, tile.tile_type.as_str()) && tile.owner == OwnerId::Heroes {
                assert(hero_building_tile(g[y as int][x as int], kinds));
                return true;
            }
            x = x + 1;
        }
        y = y + 1;
    }
    false
}

/// Whether all hero buildings are destroyed (see `hero_buildings_gone`).
pub fn hero_buildings_destroyed(state: &GameState, game_data: &GameData) -> (r: bool)
    ensures
        r == hero_buildings_gone(*state, strs(game_data.hero_buildings@)),
{
    if state.hero_base.enabled {
        return state.hero_base.is_defeated(&state.entities);
    }
    let ghost kinds = strs(game_data.hero_buildings@);
    let mut i: usize = 0;
    while i < state.entities.len()
        invariant
            !state.hero_base.enabled,
            kinds == strs(game_data.hero_buildings@),
            i <= state.entities@.len(),
            forall|k: int| 0 <= k < i ==> !live_hero_building(#[trigger] state.entities@[k], kinds),
        decreases state.entities@.len() - i,
    {
        let entity = &state.entities[i];
        let live = entity.owner == OwnerId::Heroes && match &entity.entity_type {
            EntityType::Structure(st) => {
                proof {
                    lemma_holds_str(game_data.hero_buildings@, st.building_id@);
                }
                contains_str(&game_data.hero_buildings, st.building_id.as_str()) && st.health > 0
            },
            _ => false,
        };
        assert(live == live_hero_building(state.entities@[i as int], kinds));
        if live {
            return false;
        }
        i = i + 1;
    }
    has_authored_hero_building_tiles(state, game_data)
}

/// The objective is met in `s`: the owner's heart has fallen, the time has
/// come, all hero buildings are destroyed, the player holds enough of the
/// resource, or (a custom objective) the scenario record lists it complete.
pub open spec fn objective_complete(o: ScenarioObjective, s: GameState, kinds: Seq<Seq<char>>) -> bool {
    match o {
        ScenarioObjective::DestroyHeart { owner } => heart_destroyed(s, owner),
        ScenarioObjective::SurviveTime { ms } => s.time_elapsed_ms >= ms,
        ScenarioObjective::DestroyAllHeroBuildings => hero_buildings_gone(s, kinds),
        ScenarioObjective::GatherResource { resource, amount } => resource_amount(s, resource@) >= amount,
        ScenarioObjective::Custom { id, .. } => match runtime_view(s.scenario_runtime) {
            Some(r) => r.completed.contains(id@),
            None => false,
        },
    }
}

/// Whether the objective is met now (see `objective_complete`).
pub fn objective_is_complete(objective: &ScenarioObjective, state: &GameState, game_data: &GameData) -> (r: bool)
    ensures
        r == objective_complete(*objective, *state, strs(game_data.hero_buildings@)),
{
    match objective {
        ScenarioObjective::DestroyHeart { owner } => owner_heart_destroyed(owner, state),
        ScenarioObjective::SurviveTime { ms } => state.time_elapsed_ms >= *ms,
        ScenarioObjective::DestroyAllHeroBuildings => hero_buildings_destroyed(state, game_data),
        ScenarioObjective::GatherResource { resource, amount } => current_resource_amount(state, resource.as_str())
            >= *amount,
        ScenarioObjective::Custom { id, .. } => match &state.scenario_runtime {
            Some(runtime) => {
                proof {
                    lemma_holds_str(runtime.completed_objectives@, id@);
                }
                contains_str(&runtime.completed_objectives, id.as_str())
            },
            None => false,
        },
    }
}

/// The ids of the objectives of `objs` that are met in `s`, in order.
pub open spec fn met_ids(objs: Seq<ScenarioObjective>, s: GameState, kinds: Seq<Seq<char>>) -> Seq<Seq<char>>
    decreases objs.len(),
{
    if objs.len() == 0 {
        Seq::empty()
    } else {
        met_ids(objs.drop_last(), s, kinds) + if objective_complete(objs.last(), s, kinds) {
            seq![objective_id_of(objs.last())]
        } else {
            Seq::empty()
        }
    }
}

/// `v` with each name of `names` added in turn.
pub open spec fn with_names(v: Seq<Seq<char>>, names: Seq<Seq<char>>) -> Seq<Seq<char>>
    decreases names.len(),
{
    if names.len() == 0 {
        v
    } else {
        with_name(with_names(v, names.drop_last()), names.last())
    }
}

/// The scenario record once the objectives of the active scenario that are
/// met in `s` are recorded as complete.
pub open spec fn objectives_runtime(s: GameState, d: GameData) -> Option<RuntimeView> {
    match active_scenario(d, s) {
        None => runtime_view(s.scenario_runtime),
        Some(sc) => if sc.objectives@.len() == 0 {
            runtime_view(s.scenario_runtime)
        } else {
            map_runtime(
                runtime_view(s.scenario_runtime),
                |r: RuntimeView|
                    RuntimeView {
                        completed: with_names(r.completed, met_ids(sc.objectives@, s, strs(d.hero_buildings@))),
                        ..r
                    },
            )
        },
    }
}

/// The active scenario is won: it has objectives, and once the objectives
/// met in `s` are recorded, the record lists every one of them complete.
pub open spec fn objectives_won(s: GameState, d: GameData) -> bool {
    match active_scenario(d, s) {
        None => false,
        Some(sc) => sc.objectives@.len() > 0 && match objectives_runtime(s, d) {
            Some(r) => forall|i: int| 0 <= i < sc.objectives@.len() ==> r.completed.contains(
                objective_id_of(#[trigger] sc.objectives@[i]),
            ),
            None => false,
        },
    }
}

/// Record the objectives of the active scenario that are met now as
/// complete, and say whether the scenario is won (see `objectives_won`).
/// Only the scenario record changes.
pub fn update_scenario_objectives(state: &mut GameState, game_data: &GameData) -> (won: bool)
    ensures
        *final(state) == (GameState { scenario_runtime: final(state).scenario_runtime, ..*old(state) }),
        runtime_view(final(state).scenario_runtime) == objectives_runtime(*old(state), *game_data),
        won == objectives_won(*old(state), *game_data),
{
    let ghost s0 = *state;
    let found = match &state.active_scenario_id {
        Some(id) => find_scenario(&game_data.scenarios, id.as_str()),
        None => None,
    };
    let k = match found {
        Some(k) => k,
        None => {
            proof {
                if s0.active_scenario_id is Some {
                    let id = s0.active_scenario_id->0;
                    assert(!exists|i: int| first_scenario(game_data.scenarios@, id@, i));
                }
            }
            return false;
        },
    };
    let scenario = &game_data.scenarios[k];
    proof {
        let id = s0.active_scenario_id->0;
        let c = choose|i: int| first_scenario(game_data.scenarios@, id@, i);
        lemma_first_scenario_unique(game_data.scenarios@, id@, c, k as int);
        assert(active_scenario(*game_data, s0) == Some(*scenario));
    }
    let objs = &scenario.objectives;
    if objs.len() == 0 {
        return false;
    }
    let ghost kinds = strs(game_data.hero_buildings@);
    let mut ids: Vec<String> = Vec::new();
    let mut i: usize = 0;
    while i < objs.len()
        invariant
            i <= objs@.len(),
            *state == s0,
            kinds == strs(game_data.hero_buildings@),
            strs(ids@) == met_ids(objs@.take(i as int), s0, kinds),
        decreases objs@.len() - i,
    {
        assert(objs@.take(i + 1).drop_last() =~= objs@.take(i as int));
        if objective_is_complete(&objs[i], state, game_data) {
            let ghost before = ids@;
            ids.push(objs[i].objective_id());
            assert(strs(ids@) =~= strs(before) + seq![objective_id_of(objs@[i as int])]);
        } else {
            assert(met_ids(objs@.take(i + 1), s0, kinds) =~= met_ids(objs@.take(i as int), s0, kinds));
        }
        i = i + 1;
    }
    assert(objs@.take(objs@.len() as int) =~= objs@);
    match &mut state.scenario_runtime {
        Some(runtime) => {
            let ghost r0 = runtime@;
            let mut j: usize = 0;
            while j < ids.len()
                invariant
                    j <= ids@.len(),
                    runtime@ == (RuntimeView { completed: with_names(r0.completed, strs(ids@).take(j as int)), ..r0 }),
                decreases ids@.len() - j,
            {
                assert(strs(ids@).take(j + 1).drop_last() =~= strs(ids@).take(j as int));
                runtime.mark_objective_complete(ids[j].as_str());
                j = j + 1;
            }
            assert(strs(ids@).take(ids@.len() as int) =~= strs(ids@));
            let mut all = true;
            let mut t: usize = 0;
            while t < objs.len()
                invariant
                    t <= objs@.len(),
                    all == forall|u: int| 0 <= u < t ==> runtime@.completed.contains(
                        objective_id_of(#[trigger] objs@[u]),
                    ),
                decreases objs@.len() - t,
            {
                let oid = objs[t].objective_id();
                proof {
                    lemma_holds_str(runtime.completed_objectives@, oid@);
                }
                if !contains_str(&runtime.completed_objectives, oid.as_str()) {
                    all = false;
                }
                t = t + 1;
            }
            all
        },
        None => false,
    }
}

/// `i` is the index of the first campaign with the id `id`.
pub open spec fn first_campaign(cs: Seq<CampaignDefinition>, id: Seq<char>, i: int) -> bool {
    &&& 0 <= i < cs.len()
    &&& cs[i].id@ == id
    &&& forall|j: int| 0 <= j < i ==> (#[trigger] cs[j]).id@ != id
}

/// The campaign progress after completing its active mission: unchanged
/// without progress or when the game does not know the campaign.
pub open spec fn campaign_after(p0: Option<CampaignProgress>, p1: Option<CampaignProgress>, d: GameData) -> bool {
    match p0 {
        None => p1 is None,
        Some(p) => if exists|i: int| first_campaign(d.campaigns@, p.campaign_id@, i) {
            &&& p1 is Some
            &&& completion(
                p,
                d.campaigns@[choose|i: int| first_campaign(d.campaigns@, p.campaign_id@, i)],
                p.active_mission@,
                p1->0,
            )
        } else {
            p1 == p0
        },
    }
}

/// The progress through a campaign is well formed, when there is one.
pub open spec fn campaign_wf(s: GameState) -> bool {
    s.campaign_progress is Some ==> progress_wf(s.campaign_progress->0)
}

/// Complete the active mission of the campaign being played.
pub fn complete_active_campaign_mission(state: &mut GameState, game_data: &GameData)
    requires
        campaign_wf(*old(state)),
    ensures
        campaign_wf(*final(state)),
        *final(state) == (GameState { campaign_progress: final(state).campaign_progress, ..*old(state) }),
        campaign_after(old(state).campaign_progress, final(state).campaign_progress, *game_data),
{
    match &mut state.campaign_progress {
        Some(progress) => {
            match find_campaign(&game_data.campaigns, progress.campaign_id.as_str()) {
                Some(campaign) => {
                    proof {
                        let id = progress.campaign_id@;
                        let k = choose|i: int|
                            0 <= i < game_data.campaigns@.len() && Some(campaign) == Some(&game_data.campaigns@[i])
                                && game_data.campaigns@[i].id@ == id && forall|j: int|
                                0 <= j < i ==> (#[trigger] game_data.campaigns@[j]).id@ != id;
                        assert(first_campaign(game_data.campaigns@, id, k));
                        let c = choose|i: int| first_campaign(game_data.campaigns@, id, i);
                        if c < k {
                            assert(game_data.campaigns@[c].id@ != id);
                        }
                        if k < c {
                            assert(game_data.campaigns@[k].id@ != id);
                        }
                    }
                    let mission_id = progress.active_mission.clone();
                    progress.complete_mission(campaign, mission_id.as_str());
                },
                None => {},
            }
        },
        None => {},
    }
}

/// `b` is `a` won with the message `message`: the game is over in victory,
/// the player is told, and the active campaign mission is completed; the
/// scenario record may differ too.
pub open spec fn won_with(a: GameState, b: GameState, d: GameData, message: Seq<char>) -> bool {
    &&& b == GameState {
        game_over: true,
        victory: true,
        notifications: b.notifications,
        scenario_runtime: b.scenario_runtime,
        campaign_progress: b.campaign_progress,
        ..a
    }
    &&& b.notifications@.len() == a.notifications@.len() + 1
    &&& b.notifications@.drop_last() == a.notifications@
    &&& b.notifications@.last().level == NoticeLevel::Success
    &&& b.notifications@.last().message@ == message
    &&& campaign_after(a.campaign_progress, b.campaign_progress, d)
}

/// Decide whether the game is won or lost. Nothing changes once the game is
/// over. A fallen dungeon heart loses the game. Otherwise the objectives of
/// the active scenario that are met are recorded, and the game is won when
/// the scenario is won, or else when the heroes' town (if the map has one)
/// is defeated; a victory completes the active campaign mission.
pub fn update_victory_and_defeat(state: &mut GameState, game_data: &GameData)
    requires
        campaign_wf(*old(state)),
    ensures
        campaign_wf(*final(state)),
        old(state).game_over ==> *final(state) == *old(state),
        !old(state).game_over && old(state).dungeon_heart_health <= 0 ==> ended(
            *old(state),
            *final(state),
            false,
            NoticeLevel::Danger,
            "DEFEAT! Your Dungeon Heart was destroyed!"@,
        ),
        !old(state).game_over && old(state).dungeon_heart_health > 0 ==> {
            &&& runtime_view(final(state).scenario_runtime) == objectives_runtime(*old(state), *game_data)
            &&& if objectives_won(*old(state), *game_data) {
                won_with(*old(state), *final(state), *game_data, "VICTORY! Scenario objectives completed!"@)
            } else if old(state).hero_base.enabled && base_defeated(old(state).hero_base, old(state).entities@) {
                won_with(
                    *old(state),
                    *final(state),
                    *game_data,
                    "VICTORY! All hero buildings have been destroyed!"@,
                )
            } else {
                *final(state) == (GameState { scenario_runtime: final(state).scenario_runtime, ..*old(state) })
            }
        },
{
    if state.game_over {
        return;
    }
    if state.dungeon_heart_health <= 0 {
        set_defeat(state, "DEFEAT! Your Dungeon Heart was destroyed!");
        return;
    }
    let ghost s0 = *state;
    if update_scenario_objectives(state, game_data) {
        set_victory(state, "VICTORY! Scenario objectives completed!");
        complete_active_campaign_mission(state, game_data);
        return;
    }
    let ghost s1 = *state;
    assert(s1.hero_base == s0.hero_base && s1.entities == s0.entities);
    if state.hero_base.enabled && state.hero_base.is_defeated(&state.entities) {
        set_victory(state, "VICTORY! All hero buildings have been destroyed!");
        complete_active_campaign_mission(state, game_data);
    }
}

/// A gathering objective counts the very resource it names: it is met
/// exactly when the player holds at least `amount` of gold, mana, food or
/// materials as named, and an unknown name counts as none held.
pub proof fn gathering_counts_the_named_resource(resource: String, amount: i32, s: GameState, kinds: Seq<Seq<char>>)
    ensures
        ({
            let met = objective_complete(ScenarioObjective::GatherResource { resource: resource, amount: amount }, s, kinds);
            &&& resource@ == "gold"@ ==> (met <==> s.player.gold >= amount)
            &&& resource@ == "mana"@ ==> (met <==> s.player.mana >= amount)
            &&& resource@ == "food"@ ==> (met <==> s.player.food >= amount)
            &&& resource@ == "materials"@ ==> (met <==> s.player.materials >= amount)
            &&& (resource@ != "gold"@ && resource@ != "mana"@ && resource@ != "food"@ && resource@ != "materials"@)
                ==> (met <==> 0 >= amount)
        }),
{
    reveal_strlit("gold");
    reveal_strlit("mana");
    reveal_strlit("food");
    reveal_strlit("materials");
    assert("gold"@[0] != "mana"@[0] && "gold"@[0] != "food"@[0] && "mana"@[0] != "food"@[0]);
    assert("materials"@.len() != "gold"@.len());
    let o = ScenarioObjective::GatherResource { resource: resource, amount: amount };
    assert(objective_complete(o, s, kinds) == (resource_amount(s, resource@) >= amount));
    if resource@ == "mana"@ {
        assert(resource@ != "gold"@);
    }
    if resource@ == "food"@ {
        assert(resource@ != "gold"@ && resource@ != "mana"@);
    }
    if resource@ == "materials"@ {
        assert(resource@ != "gold"@ && resource@ != "mana"@ && resource@ != "food"@);
    }
}

} // verus!
