//! Verified core logic of a dungeon-keeper style game: tile grids, map
//! generation passes, room detection, campaign progression and AI decisions.
pub mod tiles;
pub mod grid;
pub mod terrain;
pub mod paths;
pub mod counting;
pub mod connectivity;
pub mod random;
pub mod features;
pub mod biomes;
pub mod portals;
pub mod lairs;
pub mod room_validator;
pub mod campaign;
pub mod map_config;
pub mod data;
pub mod balance;
pub mod world;
pub mod hero_ai;
pub mod hero_planner;
pub mod hero_spawner;
pub mod rival_keeper;
pub mod imp_ai;
pub mod objectives;
pub mod scenario;
pub mod scenario_events;
pub mod action_processor;
pub mod starting_area;
pub mod hero_base;
pub mod spells;
pub mod spawner;
pub mod hero_digging;
pub mod movement;
pub mod pathfinding;
pub mod cheapest_path;
pub mod prison;
pub mod creature_ai;
