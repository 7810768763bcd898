//! Map generator configuration: biomes, starting positions, difficulty and
//! the starting layout that follows from it.
use vstd::prelude::*;

verus! {

/// Distinct biome regions with unique properties.
#[derive(Clone, Copy, Debug, PartialEq, Eq, Structural)]
pub enum Biome {
    Standard,
    Volcanic,
    Crystalline,
    Flooded,
    Ancient,
    Corrupted,
}

/// Strategies for placing the player's starting dungeon heart.
#[derive(Clone, Copy, Debug, PartialEq, Eq, Structural)]
pub enum StartingPosition {
    Center,
    Corner,
    Edge,
    Random,
}

/// Game difficulty affects starting resources and layout.
#[derive(Clone, Copy, Debug, PartialEq, Eq, Structural)]
pub enum Difficulty {
    Easy,
    Normal,
    Hard,
    Nightmare,
}

impl Default for StartingPosition {
    fn default() -> (r: Self)
        ensures
            r == StartingPosition::Center,
    {
        StartingPosition::Center
    }
}

impl Default for Difficulty {
    fn default() -> (r: Self)
        ensures
            r == Difficulty::Normal,
    {
        Difficulty::Normal
    }
}

/// A room to place in the starting area.
#[derive(Debug)]
pub struct StartingRoom {
    pub room_type: String,
    pub size: usize,
    pub offset_x: i32,
    pub offset_y: i32,
}

/// Defines what rooms are included in the starting area.
#[derive(Debug)]
pub struct StartingLayout {
    pub cleared_area_size: usize,
    pub rooms: Vec<StartingRoom>,
}

impl StartingLayout {
    /// The layout for a difficulty: at every difficulty a cleared area of size
    /// 3 and no prebuilt rooms (players build their own).
    pub fn from_difficulty(difficulty: Difficulty) -> (layout: Self)
        ensures
            layout.cleared_area_size == 3,
            layout.rooms@.len() == 0,
    {
        match difficulty {
            Difficulty::Easy => StartingLayout { cleared_area_size: 3, rooms: Vec::new() },
            Difficulty::Normal => StartingLayout { cleared_area_size: 3, rooms: Vec::new() },
            Difficulty::Hard => StartingLayout { cleared_area_size: 3, rooms: Vec::new() },
            Difficulty::Nightmare => StartingLayout { cleared_area_size: 3, rooms: Vec::new() },
        }
    }
}

} // verus!
