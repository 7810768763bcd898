//! Plain data records of the game's content files (rooms, spells,
//! technologies, hero buildings) that the engine reads.
use vstd::prelude::*;
use crate::scenario::ScenarioDefinition;
use crate::campaign::CampaignDefinition;

verus! {

/// What happens when a hero building is destroyed.
#[derive(Clone, Copy, Debug, PartialEq, Eq, Structural)]
pub enum DestructionEffect {
    WinGame,
    ReduceSpawnRate { percent: i32 },
    ReduceHeroSpeed { percent: i32 },
    ReduceHeroStats { attack: i32, defense: i32 },
    OpenPath,
}

/// How a hero building is drawn.
#[derive(Debug)]
pub struct BuildingVisual {
    pub tile: String,
}

/// What a room type needs before it can be built.
#[derive(Debug)]
pub struct RequirementsData {
    pub research: Vec<String>,
    pub global_rooms_required: Vec<String>,
    pub max_instances: u32,
    pub forbidden_if: Vec<String>,
}

/// The resource cost of casting a spell.
#[derive(Clone, Copy, Debug, PartialEq, Eq, Structural)]
pub struct SpellCost {
    pub mana: i32,
    pub gold: i32,
    pub health: i32,
}

/// How a spell picks its targets.
#[derive(Debug)]
pub struct TargetingData {
    pub target_type: String,
    pub range: u32,
    pub area_radius: u32,
    pub requires_visibility: bool,
    pub valid_targets: Vec<String>,
}

/// How a spell is drawn in the spellbook.
#[derive(Debug)]
pub struct SpellVisualData {
    pub icon: String,
}

/// The content a technology unlocks once researched.
#[derive(Debug)]
pub struct UnlockData {
    pub rooms: Vec<String>,
    pub spells: Vec<String>,
    pub creatures: Vec<String>,
    pub traps: Vec<String>,
}

/// How a kind of tile behaves: whether it blocks movement and whether it
/// can be dug out.
#[derive(Debug)]
pub struct TileData {
    pub id: String,
    pub blocks_movement: bool,
    pub diggable: bool,
}

/// How often a kind of hero building sends out a kind of hero, in
/// milliseconds.
#[derive(Debug)]
pub struct SpawnTrigger {
    pub building: String,
    pub hero_id: String,
    pub spawn_rate_ms: i64,
}

/// The game content that the rule engines read: the kinds of tiles, the ids
/// of the monsters, heroes, technologies and hero buildings the game knows,
/// the spawn triggers of the hero buildings, and its scenarios and campaigns.
#[derive(Debug)]
pub struct GameData {
    pub tiles: Vec<TileData>,
    pub monsters: Vec<String>,
    pub heroes: Vec<String>,
    pub technologies: Vec<String>,
    pub hero_buildings: Vec<String>,
    pub spawn_triggers: Vec<SpawnTrigger>,
    pub scenarios: Vec<ScenarioDefinition>,
    pub campaigns: Vec<CampaignDefinition>,
}

} // verus!
