use dungeon_core::campaign::{CampaignDefinition, CampaignMission, CampaignProgress, CampaignUnlocks};
use dungeon_core::data::GameData;
use dungeon_core::grid::create_base_terrain;
use dungeon_core::hero_ai::HeroGoal;
use dungeon_core::objectives::{
    hero_buildings_destroyed, objective_is_complete, update_scenario_objectives, update_victory_and_defeat,
};
use dungeon_core::scenario::{
    ActionPointDefinition, EventAction, EventTrigger, RuleValue, ScenarioDefinition, ScenarioEvent,
    ScenarioObjective, ScenarioRules, ScenarioRuntime,
};
use dungeon_core::scenario_events::{trigger_matches, update_action_points, update_scenario_events, ScenarioRequest};
use dungeon_core::tiles::{FogState, OwnerId, TilePos};
use dungeon_core::world::{
    CreatureState, Dungeon, Entity, EntityType, GameState, HeroBaseState, HeroBuildingState, HeroState,
    NoticeLevel, PlayerState, PlayerUnlocks, Room, StructureState,
};

fn rules() -> ScenarioRules {
    ScenarioRules { fog_of_war: true, starting_research: Vec::new() }
}

fn scenario(id: &str, events: Vec<ScenarioEvent>, objectives: Vec<ScenarioObjective>) -> ScenarioDefinition {
    ScenarioDefinition {
        id: id.to_string(),
        action_points: Vec::new(),
        events,
        objectives,
        hero_parties: vec!["raiders".to_string()],
        rules: rules(),
    }
}

fn game_data(scenarios: Vec<ScenarioDefinition>) -> GameData {
    GameData {
        tiles: Vec::new(),
        monsters: vec!["goblin".to_string(), "imp".to_string()],
        heroes: Vec::new(),
        technologies: vec!["alchemy".to_string(), "masonry".to_string()],
        hero_buildings: vec!["barracks".to_string(), "town_hall".to_string()],
        spawn_triggers: Vec::new(),
        scenarios,
        campaigns: Vec::new(),
    }
}

fn state_for(scenario_id: &str) -> GameState {
    GameState {
        dungeon: Dungeon { grid: create_base_terrain(24, 20), width: 24, height: 20 },
        entities: Vec::new(),
        rooms: Vec::new(),
        rival_keepers: Vec::new(),
        player: PlayerState { gold: 100, mana: 50, max_mana: 100, food: 0, materials: 0, claimed_tile_count: 0 },
        dungeon_heart_health: 100,
        paused: false,
        game_over: false,
        victory: false,
        cheat_fog_enabled: true,
        cheat_immortal_heart: false,
        notifications: Vec::new(),
        time_elapsed_ms: 0,
        active_scenario_id: Some(scenario_id.to_string()),
        scenario_runtime: Some(ScenarioRuntime::new(rules())),
        unlocks: PlayerUnlocks { rooms: Vec::new(), spells: Vec::new(), traps: Vec::new() },
        campaign_progress: None,
        hero_base: HeroBaseState { enabled: false, buildings: Vec::new() },
    }
}

fn creature(id: u64, x: i32, y: i32, owner: OwnerId) -> Entity {
    Entity {
        id,
        pos: TilePos::new(x, y),
        owner,
        health: 10,
        entity_type: EntityType::Creature(CreatureState {
            creature_id: "goblin".to_string(),
            level: 1,
            current_task: None,
            current_path: None,
            move_timer_ms: 0,
            move_interval_ms: 500,
            task_time_ms: 0,
        }),
    }
}

fn hero(id: u64, x: i32, y: i32) -> Entity {
    Entity {
        id,
        pos: TilePos::new(x, y),
        owner: OwnerId::Heroes,
        health: 10,
        entity_type: EntityType::Hero(HeroState {
            hero_id: "knight".to_string(),
            gold_stolen: 0,
            kills: 0,
            is_defender: false,
            spawn_pos: TilePos::new(x, y),
            current_goal: HeroGoal::DestroyHeart,
            target_pos: None,
            target_room_id: None,
            current_path: None,
            can_dig: false,
            is_fleeing: false,
            is_digging: false,
            dig_timer_ms: 0,
            max_dig_time_ms: 2_000,
            move_timer_ms: 0,
            move_interval_ms: 500,
            is_captured: false,
            is_converted: false,
            conversion_progress_permille: 0,
            max_health: 30,
        }),
    }
}

fn building(id: u64, kind: &str, health: i32) -> Entity {
    Entity {
        id,
        pos: TilePos::new(20, 15),
        owner: OwnerId::Heroes,
        health,
        entity_type: EntityType::Structure(StructureState { building_id: kind.to_string(), health }),
    }
}

fn runtime(state: &GameState) -> &ScenarioRuntime {
    state.scenario_runtime.as_ref().unwrap()
}

#[test]
fn action_point_event_fires_for_matching_owner() {
    let mut sc = scenario(
        "action_point_test",
        vec![ScenarioEvent {
            id: "frontier_reached".to_string(),
            trigger: EventTrigger::ActionPointReached { id: "frontier".to_string(), owner: OwnerId::Player },
            actions: vec![EventAction::CompleteObjective { objective: "frontier_done".to_string() }],
            once: true,
        }],
        vec![ScenarioObjective::Custom {
            id: "frontier_done".to_string(),
            description: "Reach the frontier.".to_string(),
        }],
    );
    sc.action_points = vec![ActionPointDefinition {
        id: "frontier".to_string(),
        x: 12,
        y: 10,
        radius: 0,
        owner: Some(OwnerId::Player),
    }];
    let data = game_data(vec![sc]);
    let mut state = state_for("action_point_test");
    state.entities.push(creature(1, 12, 10, OwnerId::Player));
    update_scenario_events(&mut state, &data);

    let rt = runtime(&state);
    assert!(rt.action_point_reached("frontier", &OwnerId::Player));
    assert!(rt.fired_events.contains(&"frontier_reached".to_string()));
    assert!(rt.completed_objectives.contains(&"frontier_done".to_string()));
}

#[test]
fn action_points_ignore_other_owners() {
    let mut sc = scenario("points", Vec::new(), Vec::new());
    sc.action_points = vec![ActionPointDefinition {
        id: "frontier".to_string(),
        x: 12,
        y: 10,
        radius: 0,
        owner: Some(OwnerId::Player),
    }];
    let mut state = state_for("points");
    state.entities.push(creature(1, 12, 10, OwnerId::Heroes));
    state.entities.push(creature(2, 12, 11, OwnerId::Player));
    update_action_points(&mut state, &sc);
    assert!(runtime(&state).reached_action_points.is_empty());
    state.entities.push(creature(3, 12, 10, OwnerId::Player));
    update_action_points(&mut state, &sc);
    update_action_points(&mut state, &sc);
    assert_eq!(runtime(&state).reached_action_points, vec![("frontier".to_string(), OwnerId::Player)]);
}

fn first_raid() -> ScenarioEvent {
    ScenarioEvent {
        id: "first_raid".to_string(),
        trigger: EventTrigger::TimeElapsed { ms: 300_000 },
        actions: vec![
            EventAction::UnlockTrap { trap: "spike_trap".to_string(), owner: OwnerId::Player },
            EventAction::SpawnHeroParty { party: "raiders".to_string(), x: 3, y: 4 },
        ],
        once: true,
    }
}

#[test]
fn timed_event_unlocks_trap_and_spawns_party_once() {
    let data = game_data(vec![scenario("dark_beginnings", vec![first_raid()], Vec::new())]);
    let mut state = state_for("dark_beginnings");
    state.time_elapsed_ms = 301_000;

    let first = update_scenario_events(&mut state, &data);
    let second = update_scenario_events(&mut state, &data);

    assert_eq!(first.len(), 1);
    assert!(matches!(&first[0], ScenarioRequest::SpawnHeroParty { party, pos } if party == "raiders" && *pos == TilePos::new(3, 4)));
    assert!(second.is_empty());
    let rt = runtime(&state);
    assert!(rt.fired_events.contains(&"first_raid".to_string()));
    assert!(rt.unlocked_traps.contains(&"spike_trap".to_string()));
    assert!(state.unlocks.traps.contains(&"spike_trap".to_string()));
}

#[test]
fn events_wait_for_their_time() {
    let data = game_data(vec![scenario("dark_beginnings", vec![first_raid()], Vec::new())]);
    let mut state = state_for("dark_beginnings");
    state.time_elapsed_ms = 299_999;
    assert!(update_scenario_events(&mut state, &data).is_empty());
    assert!(runtime(&state).fired_events.is_empty());
    assert!(state.unlocks.traps.is_empty());
}

#[test]
fn repeatable_events_fire_every_time() {
    let mut raid = first_raid();
    raid.once = false;
    let data = game_data(vec![scenario("s", vec![raid], Vec::new())]);
    let mut state = state_for("s");
    state.time_elapsed_ms = 400_000;
    assert_eq!(update_scenario_events(&mut state, &data).len(), 1);
    assert_eq!(update_scenario_events(&mut state, &data).len(), 1);
    assert_eq!(runtime(&state).fired_events, vec!["first_raid".to_string()]);
    assert_eq!(state.unlocks.traps, vec!["spike_trap".to_string()]);
}

#[test]
fn set_rule_event_updates_runtime_and_applies_side_effects() {
    let data = game_data(vec![scenario(
        "rule_event_test",
        vec![ScenarioEvent {
            id: "disable_fog".to_string(),
            trigger: EventTrigger::TimeElapsed { ms: 1_000 },
            actions: vec![EventAction::SetRule { key: "fog_of_war".to_string(), value: RuleValue::Bool(false) }],
            once: true,
        }],
        Vec::new(),
    )]);
    let mut state = state_for("rule_event_test");
    state.time_elapsed_ms = 1_000;
    update_scenario_events(&mut state, &data);

    assert!(!runtime(&state).active_rules.fog_of_war);
    assert!(!state.cheat_fog_enabled);
    assert!(state.dungeon.grid.iter().flat_map(|row| row.iter()).all(|tile| tile.fog_state == FogState::Visible));
}

#[test]
fn rules_take_values_of_their_kind_only() {
    let mut rt = ScenarioRuntime::new(rules());
    assert!(!rt.set_rule("fog_of_war", &RuleValue::Text("no".to_string())));
    assert!(rt.active_rules.fog_of_war);
    assert!(!rt.set_rule("weather", &RuleValue::Bool(false)));
    assert!(rt.set_rule("fog_of_war", &RuleValue::Bool(false)));
    assert!(!rt.active_rules.fog_of_war);
    assert!(rt.set_rule(
        "starting_research",
        &RuleValue::List(vec![Some("alchemy".to_string()), None, Some("runes".to_string())])
    ));
    assert_eq!(rt.active_rules.starting_research, vec!["alchemy".to_string(), "runes".to_string()]);
}

#[test]
fn starting_research_completes_known_technologies() {
    let data = game_data(vec![scenario(
        "research",
        vec![ScenarioEvent {
            id: "grant".to_string(),
            trigger: EventTrigger::TimeElapsed { ms: 0 },
            actions: vec![EventAction::SetRule {
                key: "starting_research".to_string(),
                value: RuleValue::List(vec![Some("masonry".to_string()), Some("runes".to_string()), None]),
            }],
            once: true,
        }],
        Vec::new(),
    )]);
    let mut state = state_for("research");
    let requests = update_scenario_events(&mut state, &data);
    assert_eq!(requests.len(), 1);
    assert!(matches!(&requests[0], ScenarioRequest::CompleteResearch { tech } if tech == "masonry"));
    assert!(state.cheat_fog_enabled);
}

#[test]
fn creatures_spawn_only_when_the_game_knows_them() {
    let data = game_data(vec![scenario(
        "spawns",
        vec![ScenarioEvent {
            id: "reinforce".to_string(),
            trigger: EventTrigger::TimeElapsed { ms: 0 },
            actions: vec![
                EventAction::SpawnCreature { creature: "imp".to_string(), owner: OwnerId::Player, x: 5, y: 6, level: 2 },
                EventAction::SpawnCreature { creature: "dragon".to_string(), owner: OwnerId::Player, x: 5, y: 6, level: 9 },
                EventAction::SpawnHeroParty { party: "unknown_party".to_string(), x: 1, y: 1 },
                EventAction::UnlockRoom { room: "library".to_string(), owner: OwnerId::Heroes },
                EventAction::UnlockSpell { spell: "heal".to_string(), owner: OwnerId::Player },
            ],
            once: true,
        }],
        Vec::new(),
    )]);
    let mut state = state_for("spawns");
    let requests = update_scenario_events(&mut state, &data);
    assert_eq!(requests.len(), 1);
    assert!(matches!(&requests[0], ScenarioRequest::SpawnCreature { creature, owner: OwnerId::Player, pos, level: 2 } if creature == "imp" && *pos == TilePos::new(5, 6)));
    // A room unlocked for another owner is recorded but not given to the player.
    assert!(state.unlocks.rooms.is_empty());
    assert_eq!(runtime(&state).unlocked_rooms, vec!["library".to_string()]);
    assert_eq!(state.unlocks.spells, vec!["heal".to_string()]);
}

#[test]
fn triggers_read_rooms_objectives_and_breaches() {
    let mut state = state_for("x");
    let room_event = |owner: OwnerId| ScenarioEvent {
        id: "e".to_string(),
        trigger: EventTrigger::RoomClaimed { room: "library".to_string(), owner },
        actions: Vec::new(),
        once: true,
    };
    assert!(!trigger_matches(&room_event(OwnerId::Player), &state));
    state.rooms.push(Room::new(0, "library".to_string(), vec![TilePos::new(2, 2)]));
    assert!(trigger_matches(&room_event(OwnerId::Player), &state));
    assert!(!trigger_matches(&room_event(OwnerId::Heroes), &state));

    let objective_event = ScenarioEvent {
        id: "o".to_string(),
        trigger: EventTrigger::ObjectiveComplete { objective: "win".to_string() },
        actions: Vec::new(),
        once: true,
    };
    assert!(!trigger_matches(&objective_event, &state));
    state.scenario_runtime.as_mut().unwrap().mark_objective_complete("win");
    assert!(trigger_matches(&objective_event, &state));

    let breach = ScenarioEvent {
        id: "b".to_string(),
        trigger: EventTrigger::DungeonBreached { owner: OwnerId::Player },
        actions: Vec::new(),
        once: true,
    };
    state.entities.push(hero(9, 4, 4));
    assert!(!trigger_matches(&breach, &state));
    state.dungeon.grid[4][4].owner = OwnerId::Player;
    assert!(trigger_matches(&breach, &state));
    // Off the map, nothing is breached.
    state.entities[0].pos = TilePos::new(-3, 4);
    assert!(!trigger_matches(&breach, &state));
}

#[test]
fn without_a_known_scenario_nothing_happens() {
    let data = game_data(vec![scenario("dark_beginnings", vec![first_raid()], Vec::new())]);
    let mut state = state_for("elsewhere");
    state.time_elapsed_ms = 500_000;
    assert!(update_scenario_events(&mut state, &data).is_empty());
    assert!(runtime(&state).fired_events.is_empty());
    assert!(!update_scenario_objectives(&mut state, &data));
}

fn add_test_scenario(objectives: Vec<ScenarioObjective>, id: &str) -> GameData {
    game_data(vec![scenario(id, Vec::new(), objectives)])
}

#[test]
fn timed_scenario_objective_drives_victory() {
    let data = add_test_scenario(vec![ScenarioObjective::SurviveTime { ms: 10_000 }], "timed_win");
    let mut state = state_for("timed_win");
    state.time_elapsed_ms = 10_100;
    update_victory_and_defeat(&mut state, &data);

    assert!(state.game_over);
    assert!(state.victory);
    assert!(runtime(&state).completed_objectives.contains(&"survive_time".to_string()));
    assert_eq!(state.notifications.last().unwrap().message, "VICTORY! Scenario objectives completed!");
    assert_eq!(state.notifications.last().unwrap().level, NoticeLevel::Success);
}

#[test]
fn scenario_victory_completes_campaign_mission() {
    let mut data = add_test_scenario(vec![ScenarioObjective::SurviveTime { ms: 1_000 }], "campaign_win");
    let campaign = CampaignDefinition {
        id: "test_campaign".to_string(),
        name: "Test Campaign".to_string(),
        description: String::new(),
        starting_mission: "m1".to_string(),
        persistent_unlocks: CampaignUnlocks { rooms: Vec::new(), spells: Vec::new(), traps: Vec::new(), creatures: Vec::new() },
        missions: vec![
            CampaignMission {
                id: "m1".to_string(),
                scenario_id: "campaign_win".to_string(),
                name: "One".to_string(),
                briefing: "Briefing".to_string(),
                unlocks_after: vec!["m2".to_string()],
                required_completed: Vec::new(),
            },
            CampaignMission {
                id: "m2".to_string(),
                scenario_id: "campaign_win".to_string(),
                name: "Two".to_string(),
                briefing: String::new(),
                unlocks_after: Vec::new(),
                required_completed: vec!["m1".to_string()],
            },
        ],
    };
    let progress = CampaignProgress::new(&campaign);
    data.campaigns.push(campaign);

    let mut state = state_for("campaign_win");
    state.campaign_progress = Some(progress);
    state.time_elapsed_ms = 1_100;
    update_victory_and_defeat(&mut state, &data);

    let progress = state.campaign_progress.as_ref().unwrap();
    assert!(progress.completed_missions.contains(&"m1".to_string()));
    assert_eq!(progress.active_mission, "m2");
}

#[test]
fn a_fallen_heart_loses_and_the_end_is_final() {
    let data = add_test_scenario(vec![ScenarioObjective::SurviveTime { ms: 0 }], "s");
    let mut state = state_for("s");
    state.dungeon_heart_health = 0;
    update_victory_and_defeat(&mut state, &data);
    assert!(state.game_over && !state.victory);
    assert_eq!(state.notifications[0].message, "DEFEAT! Your Dungeon Heart was destroyed!");
    assert_eq!(state.notifications[0].level, NoticeLevel::Danger);
    // Nothing changes once the game is over.
    state.dungeon_heart_health = 50;
    update_victory_and_defeat(&mut state, &data);
    assert!(!state.victory);
    assert_eq!(state.notifications.len(), 1);
    assert!(runtime(&state).completed_objectives.is_empty());
}

#[test]
fn every_objective_must_be_met() {
    let data = add_test_scenario(
        vec![
            ScenarioObjective::SurviveTime { ms: 5_000 },
            ScenarioObjective::GatherResource { resource: "gold".to_string(), amount: 500 },
        ],
        "two",
    );
    let mut state = state_for("two");
    state.time_elapsed_ms = 6_000;
    update_victory_and_defeat(&mut state, &data);
    assert!(!state.game_over);
    assert_eq!(runtime(&state).completed_objectives, vec!["survive_time".to_string()]);
    state.player.gold = 500;
    update_victory_and_defeat(&mut state, &data);
    assert!(state.game_over && state.victory);
    assert_eq!(
        runtime(&state).completed_objectives,
        vec!["survive_time".to_string(), "gather_resource".to_string()]
    );
}

#[test]
fn destroying_the_hero_town_wins() {
    let data = add_test_scenario(Vec::new(), "town");
    let mut state = state_for("town");
    state.entities.push(building(7, "town_hall", 50));
    state.hero_base = HeroBaseState {
        enabled: true,
        buildings: vec![HeroBuildingState {
            building_type: "town_hall".to_string(),
            pos: TilePos::new(20, 15),
            entity_id: Some(7),
            spawn_timers: Vec::new(),
        }],
    };
    update_victory_and_defeat(&mut state, &data);
    assert!(!state.game_over);
    state.entities.clear();
    update_victory_and_defeat(&mut state, &data);
    assert!(state.game_over && state.victory);
    assert_eq!(state.notifications[0].message, "VICTORY! All hero buildings have been destroyed!");
}

#[test]
fn hero_buildings_objective_without_a_town() {
    let data = add_test_scenario(vec![ScenarioObjective::DestroyAllHeroBuildings], "b");
    let mut state = state_for("b");
    // No hero building on the map at all: not destroyed.
    assert!(!hero_buildings_destroyed(&state, &data));
    state.dungeon.grid[15][20].tile_type = "barracks".to_string();
    state.dungeon.grid[15][20].owner = OwnerId::Heroes;
    state.entities.push(building(3, "barracks", 30));
    assert!(!hero_buildings_destroyed(&state, &data));
    state.entities[0].entity_type = EntityType::Structure(StructureState { building_id: "barracks".to_string(), health: 0 });
    assert!(hero_buildings_destroyed(&state, &data));
    assert!(objective_is_complete(&ScenarioObjective::DestroyAllHeroBuildings, &state, &data));
}

#[test]
fn heart_objectives_read_the_rival_hearts() {
    let data = add_test_scenario(vec![ScenarioObjective::DestroyHeart { owner: OwnerId::RivalKeeper(1) }], "h");
    let mut state = state_for("h");
    let heart = |health: i32| Entity {
        id: 40,
        pos: TilePos::new(5, 5),
        owner: OwnerId::RivalKeeper(1),
        health,
        entity_type: EntityType::Structure(StructureState { building_id: "dungeon_heart".to_string(), health }),
    };
    state.entities.push(heart(80));
    let objective = ScenarioObjective::DestroyHeart { owner: OwnerId::RivalKeeper(1) };
    assert!(!objective_is_complete(&objective, &state, &data));
    state.entities[0] = heart(0);
    assert!(objective_is_complete(&objective, &state, &data));
    update_victory_and_defeat(&mut state, &data);
    assert!(state.victory);
    assert!(runtime(&state).completed_objectives.contains(&"destroy_heart".to_string()));
}
