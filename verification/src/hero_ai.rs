//! Hero AI: how threatened a hero is, and which room or spot a hero heads for.
use vstd::prelude::*;
use crate::tiles::{TilePos, FogState, manhattan, str_eq};
use crate::world::{GameState, Entity, EntityType, Room, Dungeon, dungeon_wf, on_grid, tile_at, sum_x, sum_y, sums_fit};
use crate::campaign::holds_str;

verus! {

/// Threat level assessment for heroes.
#[derive(Clone, Copy, Debug, PartialEq, Eq, Structural)]
pub enum ThreatLevel {
    /// No threats nearby.
    Safe,
    /// Some creatures nearby but manageable.
    Moderate,
    /// Many creatures or strong opposition.
    High,
    /// Overwhelming opposition, should retreat.
    Overwhelming,
}

/// How far (Manhattan) a hero looks for threatening creatures.
pub const THREAT_RADIUS: i64 = 6;

/// How far (Manhattan) a hero can see a gold pile.
pub const GOLD_VISION_RADIUS: i64 = 8;

/// `e` is a creature within the threat radius of `pos`.
pub open spec fn near_creature(e: Entity, pos: TilePos) -> bool {
    e.entity_type is Creature && manhattan(pos, e.pos) <= THREAT_RADIUS
}

/// `e` is a strong creature: level 3 or more, or a demon spawn or a troll.
pub open spec fn strong_creature(e: Entity) -> bool {
    match e.entity_type {
        EntityType::Creature(c) => c.level >= 3 || c.creature_id@ == "demon_spawn"@
            || c.creature_id@ == "troll"@,
        _ => false,
    }
}

/// Number of creatures of `es` within the threat radius of `pos`.
pub open spec fn count_near(es: Seq<Entity>, pos: TilePos) -> nat
    decreases es.len(),
{
    if es.len() == 0 {
        0
    } else {
        count_near(es.drop_last(), pos) + if near_creature(es.last(), pos) {
            1nat
        } else {
            0nat
        }
    }
}

/// Number of strong creatures of `es` within the threat radius of `pos`.
pub open spec fn count_strong_near(es: Seq<Entity>, pos: TilePos) -> nat
    decreases es.len(),
{
    if es.len() == 0 {
        0
    } else {
        count_strong_near(es.drop_last(), pos) + if near_creature(es.last(), pos)
            && strong_creature(es.last()) {
            1nat
        } else {
            0nat
        }
    }
}

/// The threat level for `nearby` creatures of which `strong` are strong.
pub open spec fn threat_for(nearby: int, strong: int) -> ThreatLevel {
    if nearby == 0 {
        ThreatLevel::Safe
    } else if nearby <= 3 && strong == 0 {
        ThreatLevel::Moderate
    } else if (4 <= nearby <= 6) || (1 <= strong <= 2) {
        ThreatLevel::High
    } else {
        ThreatLevel::Overwhelming
    }
}

/// Manhattan distance between two positions.
pub fn calculate_distance(a: TilePos, b: TilePos) -> (d: i64)
    ensures
        d == manhattan(a, b),
{
    a.manhattan_distance(&b)
}

/// Whether the creature counts as strong.
fn is_strong(level: u32, creature_id: &String) -> (r: bool)
    ensures
        r == (level >= 3 || creature_id@ == "demon_spawn"@ || creature_id@ == "troll"@),
{
    level >= 3 || str_eq(creature_id.as_str(), "demon_spawn") || str_eq(creature_id.as_str(), "troll")
}

/// Evaluate threat level around the hero from the creatures near it.
pub fn evaluate_threat(hero_pos: TilePos, game_state: &GameState) -> (r: ThreatLevel)
    ensures
        r == threat_for(
            count_near(game_state.entities@, hero_pos) as int,
            count_strong_near(game_state.entities@, hero_pos) as int,
        ),
{
    let es = &game_state.entities;
    let mut nearby: usize = 0;
    let mut strong: usize = 0;
    let mut i: usize = 0;
    while i < es.len()
        invariant
            i <= es@.len(),
            nearby == count_near(es@.take(i as int), hero_pos),
            strong == count_strong_near(es@.take(i as int), hero_pos),
            nearby <= i,
            strong <= nearby,
        decreases es@.len() - i,
    {
        assert(es@.take(i + 1).drop_last() =~= es@.take(i as int));
        let entity = &es[i];
        if let EntityType::Creature(creature) = &entity.entity_type {
            let distance = calculate_distance(hero_pos, entity.pos);
            if distance <= THREAT_RADIUS {
                nearby = nearby + 1;
                if is_strong(creature.level, &creature.creature_id) {
                    strong = strong + 1;
                }
            }
        }
        i = i + 1;
    }
    assert(es@.take(es@.len() as int) =~= es@);
    if nearby == 0 {
        ThreatLevel::Safe
    } else if nearby <= 3 && strong == 0 {
        ThreatLevel::Moderate
    } else if (4 <= nearby && nearby <= 6) || (1 <= strong && strong <= 2) {
        ThreatLevel::High
    } else {
        ThreatLevel::Overwhelming
    }
}

/// `i` is the first room of `rooms` of the given type.
pub open spec fn first_room_of_type(rooms: Seq<Room>, room_type: Seq<char>, i: int) -> bool {
    &&& 0 <= i < rooms.len()
    &&& rooms[i].room_type@ == room_type
    &&& forall|j: int| 0 <= j < i ==> (#[trigger] rooms[j]).room_type@ != room_type
}

/// Some room of `rooms` has the given type.
pub open spec fn has_room_of_type(rooms: Seq<Room>, room_type: Seq<char>) -> bool {
    exists|i: int| 0 <= i < rooms.len() && (#[trigger] rooms[i]).room_type@ == room_type
}

/// The result of looking for a room of type `t`: the id of the first room
/// of that type, none when there is none.
pub open spec fn room_by_type_result(rooms: Seq<Room>, t: Seq<char>, r: Option<usize>) -> bool {
    &&& r is None <==> !has_room_of_type(rooms, t)
    &&& r is Some ==> exists|i: int|
            first_room_of_type(rooms, t, i) && #[trigger] rooms[i].id
                == r->0
}

/// Find a room by its type: the id of the first room of that type.
pub fn find_room_by_type(game_state: &GameState, room_type: &str) -> (r: Option<usize>)
    ensures
        room_by_type_result(game_state.rooms@, room_type@, r),
{
    let mut i: usize = 0;
    while i < game_state.rooms.len()
        invariant
            i <= game_state.rooms@.len(),
            forall|j: int| 0 <= j < i ==> (#[trigger] game_state.rooms@[j]).room_type@ != room_type@,
        decreases game_state.rooms@.len() - i,
    {
        if str_eq(game_state.rooms[i].room_type.as_str(), room_type) {
            assert(first_room_of_type(game_state.rooms@, room_type@, i as int));
            assert(has_room_of_type(game_state.rooms@, room_type@)) by {
                assert(game_state.rooms@[i as int].room_type@ == room_type@);
            }
            return Some(game_state.rooms[i].id);
        }
        i = i + 1;
    }
    None
}

/// Whether the dungeon heart still stands: some room is a dungeon heart.
pub fn is_dungeon_heart_alive(game_state: &GameState) -> (r: bool)
    ensures
        r == has_room_of_type(game_state.rooms@, "dungeon_heart"@),
{
    find_room_by_type(game_state, "dungeon_heart").is_some()
}

/// Some tile of the room lies on the grid and is still hidden by fog.
pub open spec fn room_has_hidden_tile(d: Dungeon, room: Room) -> bool {
    exists|k: int|
        0 <= k < room.tiles@.len() && on_grid(d, #[trigger] room.tiles@[k]) && tile_at(
            d,
            room.tiles@[k],
        ).fog_state == FogState::Hidden
}

/// The room to explore: the first room with a hidden tile, else the first
/// room, else none.
pub open spec fn unexplored_room_choice(d: Dungeon, rooms: Seq<Room>, r: Option<usize>) -> bool {
    if exists|i: int| 0 <= i < rooms.len() && room_has_hidden_tile(d, #[trigger] rooms[i]) {
        exists|i: int|
            #![trigger rooms[i]]
            0 <= i < rooms.len() && room_has_hidden_tile(d, rooms[i]) && r == Some(rooms[i].id)
                && forall|j: int| 0 <= j < i ==> !room_has_hidden_tile(d, #[trigger] rooms[j])
    } else if rooms.len() > 0 {
        r == Some(rooms[0].id)
    } else {
        r is None
    }
}

/// Whether some tile of the room is still hidden.
fn room_hidden(d: &Dungeon, room: &Room) -> (r: bool)
    requires
        dungeon_wf(*d),
    ensures
        r == room_has_hidden_tile(*d, *room),
{
    let mut k: usize = 0;
    while k < room.tiles.len()
        invariant
            dungeon_wf(*d),
            k <= room.tiles@.len(),
            forall|kk: int|
                0 <= kk < k ==> !(on_grid(*d, #[trigger] room.tiles@[kk]) && tile_at(
                    *d,
                    room.tiles@[kk],
                ).fog_state == FogState::Hidden),
        decreases room.tiles@.len() - k,
    {
        if let Some(tile) = d.get_tile(room.tiles[k]) {
            match tile.fog_state {
                FogState::Hidden => {
                    return true;
                },
                _ => {},
            }
        }
        k = k + 1;
    }
    false
}

/// Find an unexplored room (one with fog-covered tiles); fall back to the
/// first room.
pub fn find_unexplored_room(game_state: &GameState) -> (r: Option<usize>)
    requires
        dungeon_wf(game_state.dungeon),
    ensures
        unexplored_room_choice(game_state.dungeon, game_state.rooms@, r),
{
    let mut i: usize = 0;
    while i < game_state.rooms.len()
        invariant
            dungeon_wf(game_state.dungeon),
            i <= game_state.rooms@.len(),
            forall|j: int|
                0 <= j < i ==> !room_has_hidden_tile(game_state.dungeon, #[trigger] game_state.rooms@[j]),
        decreases game_state.rooms@.len() - i,
    {
        if room_hidden(&game_state.dungeon, &game_state.rooms[i]) {
            assert(room_has_hidden_tile(game_state.dungeon, game_state.rooms@[i as int]));
            assert(exists|i: int|
                0 <= i < game_state.rooms@.len() && room_has_hidden_tile(game_state.dungeon, #[trigger] game_state.rooms@[i]));
            return Some(game_state.rooms[i].id);
        }
        i = i + 1;
    }
    if game_state.rooms.len() > 0 {
        Some(game_state.rooms[0].id)
    } else {
        None
    }
}

/// `e` is a pile of gold.
pub open spec fn gold_pile(e: Entity) -> bool {
    match e.entity_type {
        EntityType::ResourcePile(p) => p.resource_type@ == "gold"@,
        _ => false,
    }
}

/// `e` is a pile of gold that a hero at `pos` can see.
pub open spec fn visible_gold(e: Entity, pos: TilePos) -> bool {
    gold_pile(e) && manhattan(pos, e.pos) <= GOLD_VISION_RADIUS
}

/// `i` is the first of the nearest visible gold piles.
pub open spec fn nearest_gold(es: Seq<Entity>, pos: TilePos, i: int) -> bool {
    &&& 0 <= i < es.len()
    &&& visible_gold(es[i], pos)
    &&& forall|j: int|
        0 <= j < es.len() && visible_gold(#[trigger] es[j], pos) ==> manhattan(pos, es[i].pos)
            <= manhattan(pos, es[j].pos)
    &&& forall|j: int|
        0 <= j < i && visible_gold(#[trigger] es[j], pos) ==> manhattan(pos, es[i].pos) < manhattan(
            pos,
            es[j].pos,
        )
}

/// Find the nearest visible gold pile (the first one on ties).
pub fn find_nearby_gold_pile(hero_pos: TilePos, game_state: &GameState) -> (r: Option<TilePos>)
    ensures
        r is None <==> forall|j: int|
            0 <= j < game_state.entities@.len() ==> !visible_gold(
                #[trigger] game_state.entities@[j],
                hero_pos,
            ),
        r is Some ==> exists|i: int|
            nearest_gold(game_state.entities@, hero_pos, i) && (#[trigger] game_state.entities@[i]).pos
                == r->0,
{
    let es = &game_state.entities;
    let mut best: Option<usize> = None;
    let mut min_dist: i64 = 0;
    let mut i: usize = 0;
    while i < es.len()
        invariant
            i <= es@.len(),
            best is None <==> forall|j: int| 0 <= j < i ==> !visible_gold(#[trigger] es@[j], hero_pos),
            best is Some ==> {
                let b = best->0 as int;
                &&& 0 <= b < i
                &&& visible_gold(es@[b], hero_pos)
                &&& min_dist == manhattan(hero_pos, es@[b].pos)
                &&& forall|j: int|
                    0 <= j < i && visible_gold(#[trigger] es@[j], hero_pos) ==> min_dist <= manhattan(
                        hero_pos,
                        es@[j].pos,
                    )
                &&& forall|j: int|
                    0 <= j < b && visible_gold(#[trigger] es@[j], hero_pos) ==> min_dist < manhattan(
                        hero_pos,
                        es@[j].pos,
                    )
            },
        decreases es@.len() - i,
    {
        let entity = &es[i];
        if let EntityType::ResourcePile(pile) = &entity.entity_type {
            if str_eq(pile.resource_type.as_str(), "gold") {
                let dist = calculate_distance(hero_pos, entity.pos);
                if dist <= GOLD_VISION_RADIUS && (best.is_none() || dist < min_dist) {
                    min_dist = dist;
                    best = Some(i);
                }
            }
        }
        i = i + 1;
    }
    match best {
        Some(b) => {
            assert(nearest_gold(es@, hero_pos, b as int));
            Some(es[b].pos)
        },
        None => None,
    }
}

/// What a hero is trying to do.
#[derive(Clone, Copy, Debug, PartialEq, Eq, Structural)]
pub enum HeroGoal {
    DestroyHeart,
    StealGold(i32),
    KillCreatures(u32),
    SabotageRoom(usize),
    Explore,
    RestAtSpawn(TilePos),
    Retreat,
}

/// The parts of a hero's data that its choice of goal reads.
#[derive(Debug)]
pub struct HeroGoalProfile {
    pub tier: u32,
    pub primary_goal: String,
    pub secondary_goals: Vec<String>,
    pub will_fight_to_death: bool,
}

/// How much gold a hero of the tier sets out to steal.
pub open spec fn gold_target(tier: u32) -> i32 {
    if tier == 1 {
        100
    } else if tier == 2 {
        250
    } else if tier == 3 {
        500
    } else if tier == 4 {
        1000
    } else if tier == 5 {
        2000
    } else {
        500
    }
}

/// How many creatures a hero of the tier sets out to kill.
pub open spec fn kill_target(tier: u32) -> u32 {
    if tier == 1 {
        3
    } else if tier == 2 {
        8
    } else if tier == 3 {
        15
    } else if tier == 4 {
        25
    } else if tier == 5 {
        50
    } else {
        10
    }
}

/// Calculate gold stealing target based on hero tier.
pub fn calculate_gold_target(tier: u32) -> (r: i32)
    ensures
        r == gold_target(tier),
{
    match tier {
        1 => 100,
        2 => 250,
        3 => 500,
        4 => 1000,
        5 => 2000,
        _ => 500,
    }
}

/// Calculate creature killing target based on hero tier.
pub fn calculate_kill_target(tier: u32) -> (r: u32)
    ensures
        r == kill_target(tier),
{
    match tier {
        1 => 3,
        2 => 8,
        3 => 15,
        4 => 25,
        5 => 50,
        _ => 10,
    }
}

/// The goal a secondary goal name gives, if it is still open.
pub open spec fn secondary_option(name: Seq<char>, gold_stolen: i32, kills: u32, tier: u32) -> Option<HeroGoal> {
    if name == "steal_gold"@ {
        if gold_stolen < gold_target(tier) {
            Some(HeroGoal::StealGold(gold_target(tier)))
        } else {
            None
        }
    } else if name == "kill_creatures"@ {
        if kills < kill_target(tier) {
            Some(HeroGoal::KillCreatures(kill_target(tier)))
        } else {
            None
        }
    } else if name == "explore"@ {
        Some(HeroGoal::Explore)
    } else {
        None
    }
}

/// The first open goal among the secondary goals, else exploring.
pub open spec fn secondary_goal(names: Seq<String>, gold_stolen: i32, kills: u32, tier: u32) -> HeroGoal
    decreases names.len(),
{
    if names.len() == 0 {
        HeroGoal::Explore
    } else {
        match secondary_option(names[0]@, gold_stolen, kills, tier) {
            Some(g) => g,
            None => secondary_goal(names.drop_first(), gold_stolen, kills, tier),
        }
    }
}

/// Choose a secondary goal when the primary one is done: the first secondary
/// goal that is still open, else exploring.
pub fn choose_secondary_goal(gold_stolen: i32, kills: u32, hero: &HeroGoalProfile) -> (r: HeroGoal)
    ensures
        r == secondary_goal(hero.secondary_goals@, gold_stolen, kills, hero.tier),
{
    assert(hero.secondary_goals@.skip(0) =~= hero.secondary_goals@);
    let mut i: usize = 0;
    while i < hero.secondary_goals.len()
        invariant
            i <= hero.secondary_goals@.len(),
            secondary_goal(hero.secondary_goals@, gold_stolen, kills, hero.tier) == secondary_goal(
                hero.secondary_goals@.skip(i as int),
                gold_stolen,
                kills,
                hero.tier,
            ),
        decreases hero.secondary_goals@.len() - i,
    {
        let name = hero.secondary_goals[i].as_str();
        assert(hero.secondary_goals@.skip(i as int)[0] == hero.secondary_goals@[i as int]);
        assert(hero.secondary_goals@.skip(i as int).drop_first() =~= hero.secondary_goals@.skip(i + 1));
        if str_eq(name, "steal_gold") {
            let target = calculate_gold_target(hero.tier);
            if gold_stolen < target {
                return HeroGoal::StealGold(target);
            }
        } else if str_eq(name, "kill_creatures") {
            let target = calculate_kill_target(hero.tier);
            if kills < target {
                return HeroGoal::KillCreatures(target);
            }
        } else if str_eq(name, "explore") {
            return HeroGoal::Explore;
        }
        i = i + 1;
    }
    HeroGoal::Explore
}

/// The goal a hero settles on. Without hero data it attacks the heart. A
/// hero whose nerve broke (`retreating`), or facing overwhelming odds without
/// being one to fight to the death, retreats. Otherwise its primary goal
/// decides: destroying the heart while a heart room stands, stealing or
/// killing up to its tier's target, exploring; once a primary goal is done, a
/// secondary goal.
pub open spec fn hero_goal(
    threat: ThreatLevel,
    heart_alive: bool,
    gold_stolen: i32,
    kills: u32,
    hero: Option<HeroGoalProfile>,
    retreating: bool,
) -> HeroGoal {
    match hero {
        None => HeroGoal::DestroyHeart,
        Some(h) => if retreating {
            HeroGoal::Retreat
        } else if threat == ThreatLevel::Overwhelming && !h.will_fight_to_death {
            HeroGoal::Retreat
        } else if h.primary_goal@ == "destroy_heart"@ {
            if heart_alive {
                HeroGoal::DestroyHeart
            } else {
                secondary_goal(h.secondary_goals@, gold_stolen, kills, h.tier)
            }
        } else if h.primary_goal@ == "steal_gold"@ {
            if gold_stolen < gold_target(h.tier) {
                HeroGoal::StealGold(gold_target(h.tier))
            } else {
                secondary_goal(h.secondary_goals@, gold_stolen, kills, h.tier)
            }
        } else if h.primary_goal@ == "kill_creatures"@ {
            if kills < kill_target(h.tier) {
                HeroGoal::KillCreatures(kill_target(h.tier))
            } else {
                secondary_goal(h.secondary_goals@, gold_stolen, kills, h.tier)
            }
        } else if h.primary_goal@ == "explore"@ {
            HeroGoal::Explore
        } else {
            HeroGoal::DestroyHeart
        },
    }
}

/// Decide the current goal for a hero at `hero_pos` that has stolen
/// `gold_stolen` and killed `kills`. `hero` is its data (none when the hero
/// is unknown); `retreating` says whether its health fell below its nerve.
pub fn decide_hero_goal(
    hero_pos: TilePos,
    gold_stolen: i32,
    kills: u32,
    hero: Option<&HeroGoalProfile>,
    retreating: bool,
    game_state: &GameState,
) -> (r: HeroGoal)
    ensures
        r == hero_goal(
            threat_for(
                count_near(game_state.entities@, hero_pos) as int,
                count_strong_near(game_state.entities@, hero_pos) as int,
            ),
            has_room_of_type(game_state.rooms@, "dungeon_heart"@),
            gold_stolen,
            kills,
            match hero {
                Some(h) => Some(*h),
                None => None,
            },
            retreating,
        ),
{
    let h = match hero {
        Some(h) => h,
        None => {
            return HeroGoal::DestroyHeart;
        },
    };
    if retreating {
        return HeroGoal::Retreat;
    }
    let threat = evaluate_threat(hero_pos, game_state);
    if threat == ThreatLevel::Overwhelming && !h.will_fight_to_death {
        return HeroGoal::Retreat;
    }
    let goal = h.primary_goal.as_str();
    if str_eq(goal, "destroy_heart") {
        if is_dungeon_heart_alive(game_state) {
            HeroGoal::DestroyHeart
        } else {
            choose_secondary_goal(gold_stolen, kills, h)
        }
    } else if str_eq(goal, "steal_gold") {
        let target = calculate_gold_target(h.tier);
        if gold_stolen < target {
            HeroGoal::StealGold(target)
        } else {
            choose_secondary_goal(gold_stolen, kills, h)
        }
    } else if str_eq(goal, "kill_creatures") {
        let target = calculate_kill_target(h.tier);
        if kills < target {
            HeroGoal::KillCreatures(target)
        } else {
            choose_secondary_goal(gold_stolen, kills, h)
        }
    } else if str_eq(goal, "explore") {
        HeroGoal::Explore
    } else {
        HeroGoal::DestroyHeart
    }
}

/// The smallest Manhattan distance from `pos` to one of the tiles.
pub open spec fn min_tile_dist(tiles: Seq<TilePos>, pos: TilePos) -> Option<int>
    decreases tiles.len(),
{
    if tiles.len() == 0 {
        None
    } else {
        let d = manhattan(pos, tiles.last());
        match min_tile_dist(tiles.drop_last(), pos) {
            Some(m) => Some(
                if d < m {
                    d
                } else {
                    m
                },
            ),
            None => Some(d),
        }
    }
}

/// How far a room is, as a factor in tenths: its nearest tile's distance
/// clamped to between 5 and 30 (0.5 to 3.0), 30 for a room without tiles.
/// Nearer rooms have smaller factors and are preferred.
pub open spec fn distance_factor(room: Room, pos: TilePos) -> int {
    match min_tile_dist(room.tiles@, pos) {
        None => 30,
        Some(d) => if d < 5 {
            5
        } else if d > 30 {
            30
        } else {
            d
        },
    }
}

/// The distance factor of a room (in tenths).
pub fn calculate_room_distance_factor(hero_pos: TilePos, room: &Room) -> (f: i64)
    ensures
        f == distance_factor(*room, hero_pos),
        5 <= f <= 30,
{
    let mut best: Option<i64> = None;
    let mut i: usize = 0;
    while i < room.tiles.len()
        invariant
            i <= room.tiles@.len(),
            match best {
                Some(m) => min_tile_dist(room.tiles@.take(i as int), hero_pos) == Some(m as int),
                None => min_tile_dist(room.tiles@.take(i as int), hero_pos) is None,
            },
        decreases room.tiles@.len() - i,
    {
        assert(room.tiles@.take(i + 1).drop_last() =~= room.tiles@.take(i as int));
        let d = calculate_distance(hero_pos, room.tiles[i]);
        best = match best {
            Some(m) => Some(
                if d < m {
                    d
                } else {
                    m
                },
            ),
            None => Some(d),
        };
        i = i + 1;
    }
    assert(room.tiles@.take(room.tiles@.len() as int) =~= room.tiles@);
    match best {
        None => 30,
        Some(d) => if d < 5 {
            5
        } else if d > 30 {
            30
        } else {
            d
        },
    }
}

/// A room of one of the given types that has tiles: where heroes look for
/// creatures to kill.
pub open spec fn creature_room(room: Room, room_types: Seq<Seq<char>>) -> bool {
    room_types.contains(room.room_type@) && room.tiles@.len() > 0
}

/// Room `a` scores higher than room `b` for a hero at `pos`: more tiles per
/// unit of distance factor.
pub open spec fn scores_higher(a: Room, b: Room, pos: TilePos) -> bool {
    a.tiles@.len() * distance_factor(b, pos) > b.tiles@.len() * distance_factor(a, pos)
}

/// Scoring is transitive across a room that is at least as good as another.
proof fn lemma_score_order(sj: int, fj: int, sb: int, fb: int, sk: int, fk: int)
    by (nonlinear_arith)
    requires
        fj > 0,
        fb > 0,
        fk > 0,
        sj * fb <= sb * fj,
        sk * fb > sb * fk,
    ensures
        sk * fj > sj * fk,
{
    assert(sj * fb * fk <= sb * fj * fk);
    assert(sk * fb * fj > sb * fk * fj);
}

/// The result of looking for the room most likely to hold creatures.
pub open spec fn creature_room_result(rooms: Seq<Room>, types: Seq<Seq<char>>, pos: TilePos, r: Option<usize>) -> bool {
    &&& r is None <==> forall|j: int|
            0 <= j < rooms.len() ==> !creature_room(#[trigger] rooms[j], types)
    &&& r is Some ==> exists|i: int|
            #![trigger rooms[i]]
            0 <= i < rooms.len() && creature_room(rooms[i], types) && rooms[i].id == r->0
                && (forall|j: int|
                0 <= j < rooms.len() && creature_room(#[trigger] rooms[j], types) ==> !scores_higher(
                    rooms[j],
                    rooms[i],
                    pos,
                )) && (forall|j: int|
                0 <= j < i && creature_room(#[trigger] rooms[j], types) ==> scores_higher(
                    rooms[i],
                    rooms[j],
                    pos,
                ))
}

/// Find the room most likely to hold creatures: among the rooms of the given
/// types, the first with the most tiles per unit of distance factor.
pub fn find_room_with_creatures(hero_pos: TilePos, room_types: &Vec<String>, game_state: &GameState) -> (r: Option<usize>)
    ensures
        creature_room_result(game_state.rooms@, crate::campaign::strs(room_types@), hero_pos, r),
{
    let mut best: Option<(usize, u64, i64)> = None;
    let mut i: usize = 0;
    while i < game_state.rooms.len()
        invariant
            i <= game_state.rooms@.len(),
            best is None <==> forall|j: int| 0 <= j < i ==> !creature_room(#[trigger] game_state.rooms@[j], crate::campaign::strs(room_types@)),
            best matches Some(b) ==> {
                &&& b.0 < i
                &&& creature_room(game_state.rooms@[b.0 as int], crate::campaign::strs(room_types@))
                &&& b.1 == game_state.rooms@[b.0 as int].tiles@.len()
                &&& b.2 == distance_factor(game_state.rooms@[b.0 as int], hero_pos)
                &&& forall|j: int|
                    0 <= j < i && creature_room(#[trigger] game_state.rooms@[j], crate::campaign::strs(room_types@)) ==> !scores_higher(
                        game_state.rooms@[j],
                        game_state.rooms@[b.0 as int],
                        hero_pos,
                    )
                &&& forall|j: int|
                    0 <= j < b.0 && creature_room(#[trigger] game_state.rooms@[j], crate::campaign::strs(room_types@)) ==> scores_higher(
                        game_state.rooms@[b.0 as int],
                        game_state.rooms@[j],
                        hero_pos,
                    )
            },
        decreases game_state.rooms@.len() - i,
    {
        let room = &game_state.rooms[i];
        let listed = contains_str_list(room_types, room.room_type.as_str());
        proof {
            let ts = crate::campaign::strs(room_types@);
            if listed {
                let k = choose|k: int| 0 <= k < room_types@.len() && (#[trigger] room_types@[k])@ == room.room_type@;
                assert(ts[k] == room.room_type@);
            }
            if ts.contains(room.room_type@) {
                let k = choose|k: int| 0 <= k < ts.len() && ts[k] == room.room_type@;
                assert(room_types@[k]@ == room.room_type@);
            }
            assert(listed == ts.contains(room.room_type@));
        }
        if listed && room.tiles.len() > 0 {
            let size = room.tiles.len() as u64;
            let f = calculate_room_distance_factor(hero_pos, room);
            let take = match best {
                None => true,
                Some(b) => {
                    assert(5 <= b.2 <= 30);
                    assert((size as u128) * (b.2 as u128) <= 0xffff_ffff_ffff_ffff * 30) by (nonlinear_arith)
                        requires
                            size <= 0xffff_ffff_ffff_ffff,
                            0 <= b.2 <= 30,
                    ;
                    assert((b.1 as u128) * (f as u128) <= 0xffff_ffff_ffff_ffff * 30) by (nonlinear_arith)
                        requires
                            b.1 <= 0xffff_ffff_ffff_ffff,
                            0 <= f <= 30,
                    ;
                    (size as u128) * (b.2 as u128) > (b.1 as u128) * (f as u128)
                },
            };
            if take {
                proof {
                    if let Some(b) = best {
                        let rb = game_state.rooms@[b.0 as int];
                        assert forall|j: int|
                            0 <= j < i + 1 && creature_room(#[trigger] game_state.rooms@[j], crate::campaign::strs(room_types@)) implies !scores_higher(
                                game_state.rooms@[j],
                                game_state.rooms@[i as int],
                                hero_pos,
                            ) && (j < i ==> scores_higher(game_state.rooms@[i as int], game_state.rooms@[j], hero_pos)) by {
                            if j < i {
                                let rj = game_state.rooms@[j];
                                lemma_score_order(
                                    rj.tiles@.len() as int,
                                    distance_factor(rj, hero_pos),
                                    rb.tiles@.len() as int,
                                    distance_factor(rb, hero_pos),
                                    size as int,
                                    f as int,
                                );
                            }
                        }
                    }
                }
                best = Some((i, size, f));
            }
        }
        i = i + 1;
    }
    match best {
        Some(b) => Some(game_state.rooms[b.0].id),
        None => None,
    }
}

/// Whether the list holds the string.
fn contains_str_list(v: &Vec<String>, s: &str) -> (r: bool)
    ensures
        r == holds_str(v@, s@),
{
    crate::campaign::contains_str(v, s)
}

/// The result of looking for the preferred room of type `t`.
pub open spec fn priority_room_result(rooms: Seq<Room>, priority_positive: bool, t: Seq<char>, pos: TilePos, r: Option<usize>) -> bool {
    &&& r is None <==> (!priority_positive || !has_room_of_type(rooms, t))
    &&& r is Some ==> exists|i: int|
            #![trigger rooms[i]]
            0 <= i < rooms.len() && rooms[i].room_type@ == t && rooms[i].id == r->0
                && (forall|j: int|
                0 <= j < rooms.len() && (#[trigger] rooms[j]).room_type@ == t ==> distance_factor(
                    rooms[i],
                    pos,
                ) <= distance_factor(rooms[j], pos)) && (forall|j: int|
                0 <= j < i && (#[trigger] rooms[j]).room_type@ == t ==> distance_factor(
                    rooms[i],
                    pos,
                ) < distance_factor(rooms[j], pos))
}

/// Find the best room of a type by the hero's priority for it: when the hero
/// values the type at all (`priority_positive`), the first room of the type
/// with the smallest distance factor.
pub fn find_best_room_by_priority(
    hero_pos: TilePos,
    priority_positive: bool,
    room_type: &str,
    game_state: &GameState,
) -> (r: Option<usize>)
    ensures
        r is None <==> (!priority_positive || !has_room_of_type(game_state.rooms@, room_type@)),
        r is Some ==> exists|i: int|
            #![trigger game_state.rooms@[i]]
            0 <= i < game_state.rooms@.len() && game_state.rooms@[i].room_type@ == room_type@ && game_state.rooms@[i].id == r->0
                && (forall|j: int|
                0 <= j < game_state.rooms@.len() && (#[trigger] game_state.rooms@[j]).room_type@ == room_type@ ==> distance_factor(
                    game_state.rooms@[i],
                    hero_pos,
                ) <= distance_factor(game_state.rooms@[j], hero_pos)) && (forall|j: int|
                0 <= j < i && (#[trigger] game_state.rooms@[j]).room_type@ == room_type@ ==> distance_factor(
                    game_state.rooms@[i],
                    hero_pos,
                ) < distance_factor(game_state.rooms@[j], hero_pos)),
{
    if !priority_positive {
        return None;
    }
    let mut best: Option<(usize, i64)> = None;
    let mut i: usize = 0;
    while i < game_state.rooms.len()
        invariant
            i <= game_state.rooms@.len(),
            best is None <==> forall|j: int| 0 <= j < i ==> (#[trigger] game_state.rooms@[j]).room_type@ != room_type@,
            best matches Some(b) ==> {
                &&& b.0 < i
                &&& game_state.rooms@[b.0 as int].room_type@ == room_type@
                &&& b.1 == distance_factor(game_state.rooms@[b.0 as int], hero_pos)
                &&& forall|j: int|
                    0 <= j < i && (#[trigger] game_state.rooms@[j]).room_type@ == room_type@ ==> b.1 <= distance_factor(
                        game_state.rooms@[j],
                        hero_pos,
                    )
                &&& forall|j: int|
                    0 <= j < b.0 && (#[trigger] game_state.rooms@[j]).room_type@ == room_type@ ==> b.1 < distance_factor(
                        game_state.rooms@[j],
                        hero_pos,
                    )
            },
        decreases game_state.rooms@.len() - i,
    {
        let room = &game_state.rooms[i];
        if str_eq(room.room_type.as_str(), room_type) {
            let f = calculate_room_distance_factor(hero_pos, room);
            if best.is_none() || f < best.unwrap().1 {
                best = Some((i, f));
            }
        }
        i = i + 1;
    }
    match best {
        Some(b) => {
            assert(has_room_of_type(game_state.rooms@, room_type@)) by {
                assert(game_state.rooms@[b.0 as int].room_type@ == room_type@);
            }
            Some(game_state.rooms[b.0].id)
        },
        None => None,
    }
}

/// Room `a` lies nearer the map's origin than room `b`, comparing the
/// squared distances of their centres exactly: `|Σa|² / n_a²` against
/// `|Σb|² / n_b²`.
pub open spec fn nearer_origin(a: Room, b: Room) -> bool {
    let na = a.tiles@.len() as int;
    let nb = b.tiles@.len() as int;
    let qa = sum_x(a.tiles@) * sum_x(a.tiles@) + sum_y(a.tiles@) * sum_y(a.tiles@);
    let qb = sum_x(b.tiles@) * sum_x(b.tiles@) + sum_y(b.tiles@) * sum_y(b.tiles@);
    qa * (nb * nb) < qb * (na * na)
}

/// The rooms can be measured: each has at most `i32::MAX` tiles whose
/// coordinate sums fit in an `i32`.
pub open spec fn rooms_measurable(rooms: Seq<Room>) -> bool {
    forall|j: int| 0 <= j < rooms.len() ==> (#[trigger] rooms[j]).tiles@.len() <= i32::MAX && sums_fit(rooms[j].tiles@)
}

/// Being nearer the origin is transitive across a room that is at least as
/// near as another.
proof fn lemma_nearer_order(qj: int, nj: int, qb: int, nb: int, qk: int, nk: int)
    by (nonlinear_arith)
    requires
        nj > 0,
        nb > 0,
        nk > 0,
        qj * nb >= qb * nj,
        qk * nb < qb * nk,
    ensures
        qk * nj < qj * nk,
{
    assert(qj * nb * nk >= qb * nj * nk);
    assert(qk * nb * nj < qb * nk * nj);
}

/// The coordinate sums of a room's tiles.
fn room_sums(room: &Room) -> (r: (i64, i64))
    requires
        room.tiles@.len() <= i32::MAX,
        sums_fit(room.tiles@),
    ensures
        r.0 == sum_x(room.tiles@),
        r.1 == sum_y(room.tiles@),
        i32::MIN <= r.0 <= i32::MAX,
        i32::MIN <= r.1 <= i32::MAX,
{
    let mut sx: i64 = 0;
    let mut sy: i64 = 0;
    let mut i: usize = 0;
    while i < room.tiles.len()
        invariant
            i <= room.tiles@.len(),
            sums_fit(room.tiles@),
            sx == sum_x(room.tiles@.take(i as int)),
            sy == sum_y(room.tiles@.take(i as int)),
            i32::MIN <= sx <= i32::MAX,
            i32::MIN <= sy <= i32::MAX,
        decreases room.tiles@.len() - i,
    {
        assert(room.tiles@.take(i + 1).drop_last() =~= room.tiles@.take(i as int));
        sx = sx + room.tiles[i].x as i64;
        sy = sy + room.tiles[i].y as i64;
        i = i + 1;
        assert(i32::MIN <= sum_x(room.tiles@.take(i as int)) <= i32::MAX);
        assert(i32::MIN <= sum_y(room.tiles@.take(i as int)) <= i32::MAX);
    }
    assert(room.tiles@.take(room.tiles@.len() as int) =~= room.tiles@);
    (sx, sy)
}

/// The result of looking for the room nearest the entrance.
pub open spec fn entrance_room_result(rooms: Seq<Room>, r: Option<usize>) -> bool {
    &&& r is None <==> forall|j: int| 0 <= j < rooms.len() ==> (#[trigger] rooms[j]).tiles@.len() == 0
    &&& r is Some ==> exists|i: int|
            #![trigger rooms[i]]
            0 <= i < rooms.len() && rooms[i].tiles@.len() > 0 && rooms[i].id == r->0
                && (forall|j: int|
                0 <= j < rooms.len() && (#[trigger] rooms[j]).tiles@.len() > 0 ==> !nearer_origin(
                    rooms[j],
                    rooms[i],
                )) && (forall|j: int|
                0 <= j < i && (#[trigger] rooms[j]).tiles@.len() > 0 ==> nearer_origin(
                    rooms[i],
                    rooms[j],
                ))
}

/// Find the room nearest the dungeon entrance (the map's origin): the first
/// room with tiles whose centre lies nearest the origin.
pub fn find_entrance_room(game_state: &GameState) -> (r: Option<usize>)
    requires
        rooms_measurable(game_state.rooms@),
    ensures
        entrance_room_result(game_state.rooms@, r),
{
    let mut best: Option<(usize, i128, i128)> = None;
    let mut i: usize = 0;
    while i < game_state.rooms.len()
        invariant
            rooms_measurable(game_state.rooms@),
            i <= game_state.rooms@.len(),
            best is None <==> forall|j: int| 0 <= j < i ==> (#[trigger] game_state.rooms@[j]).tiles@.len() == 0,
            best matches Some(b) ==> {
                let rb = game_state.rooms@[b.0 as int];
                &&& b.0 < i
                &&& rb.tiles@.len() > 0
                &&& b.1 == sum_x(rb.tiles@) * sum_x(rb.tiles@) + sum_y(rb.tiles@) * sum_y(rb.tiles@)
                &&& b.2 == rb.tiles@.len() * rb.tiles@.len()
                &&& 0 <= b.1 <= 0x8000_0000_0000_0000
                &&& 0 < b.2 <= 0x4000_0000_0000_0000
                &&& forall|j: int|
                    0 <= j < i && (#[trigger] game_state.rooms@[j]).tiles@.len() > 0 ==> !nearer_origin(
                        game_state.rooms@[j],
                        rb,
                    )
                &&& forall|j: int|
                    0 <= j < b.0 && (#[trigger] game_state.rooms@[j]).tiles@.len() > 0 ==> nearer_origin(
                        rb,
                        game_state.rooms@[j],
                    )
            },
        decreases game_state.rooms@.len() - i,
    {
        let room = &game_state.rooms[i];
        let n = room.tiles.len();
        if n > 0 {
            assert(room.tiles@.len() <= i32::MAX && sums_fit(room.tiles@));
            let (sx, sy) = room_sums(room);
            assert(0 <= sx * sx <= 0x4000_0000_0000_0000) by (nonlinear_arith)
                requires
                    i32::MIN <= sx <= i32::MAX,
            ;
            assert(0 <= sy * sy <= 0x4000_0000_0000_0000) by (nonlinear_arith)
                requires
                    i32::MIN <= sy <= i32::MAX,
            ;
            let sx2 = sx as i128 * sx as i128;
            let sy2 = sy as i128 * sy as i128;
            let q = sx2 + sy2;
            assert(0 < n * n <= 0x4000_0000_0000_0000) by (nonlinear_arith)
                requires
                    0 < n <= i32::MAX,
            ;
            let nn = n as i128 * n as i128;
            let take = match best {
                None => true,
                Some(b) => {
                    assert(q * b.2 <= 0x8000_0000_0000_0000 * 0x4000_0000_0000_0000) by (nonlinear_arith)
                        requires
                            0 <= q <= 0x8000_0000_0000_0000,
                            0 < b.2 <= 0x4000_0000_0000_0000,
                    ;
                    assert(b.1 * nn <= 0x8000_0000_0000_0000 * 0x4000_0000_0000_0000) by (nonlinear_arith)
                        requires
                            0 <= b.1 <= 0x8000_0000_0000_0000,
                            0 < nn <= 0x4000_0000_0000_0000,
                    ;
                    q * b.2 < b.1 * nn
                },
            };
            if take {
                proof {
                    if let Some(b) = best {
                        let rb = game_state.rooms@[b.0 as int];
                        assert forall|j: int|
                            0 <= j < i + 1 && (#[trigger] game_state.rooms@[j]).tiles@.len() > 0 implies !nearer_origin(
                                game_state.rooms@[j],
                                game_state.rooms@[i as int],
                            ) && (j < i ==> nearer_origin(game_state.rooms@[i as int], game_state.rooms@[j])) by {
                            if j < i {
                                let rj = game_state.rooms@[j];
                                let nj = rj.tiles@.len() as int;
                                let qj = sum_x(rj.tiles@) * sum_x(rj.tiles@) + sum_y(rj.tiles@) * sum_y(rj.tiles@);
                                assert(nj * nj > 0) by (nonlinear_arith)
                                    requires
                                        nj > 0,
                                ;
                                assert(qj >= 0) by (nonlinear_arith)
                                    requires
                                        qj == sum_x(rj.tiles@) * sum_x(rj.tiles@) + sum_y(rj.tiles@) * sum_y(rj.tiles@),
                                ;
                                lemma_nearer_order(qj, nj * nj, b.1 as int, b.2 as int, q as int, nn as int);
                            }
                        }
                    }
                }
                best = Some((i, q, nn));
            }
        }
        i = i + 1;
    }
    match best {
        Some(b) => Some(game_state.rooms[b.0].id),
        None => None,
    }
}

/// Find the room a hero heads for with its goal: the dungeon heart, the
/// nearest treasury, the best creature room (lairs and training halls), the
/// room to sabotage, a room to explore, or the room nearest the entrance to
/// retreat to; none while resting. `treasury_priority_positive` says whether
/// the hero values treasuries at all.
pub fn find_target_room(
    hero_pos: TilePos,
    goal: HeroGoal,
    treasury_priority_positive: bool,
    game_state: &GameState,
) -> (r: Option<usize>)
    requires
        dungeon_wf(game_state.dungeon),
        rooms_measurable(game_state.rooms@),
    ensures
        match goal {
            HeroGoal::DestroyHeart => room_by_type_result(game_state.rooms@, "dungeon_heart"@, r),
            HeroGoal::StealGold(_) => priority_room_result(
                game_state.rooms@,
                treasury_priority_positive,
                "treasury"@,
                hero_pos,
                r,
            ),
            HeroGoal::KillCreatures(_) => creature_room_result(
                game_state.rooms@,
                seq!["lair"@, "training_hall"@],
                hero_pos,
                r,
            ),
            HeroGoal::SabotageRoom(room_id) => r == Some(room_id),
            HeroGoal::Explore => unexplored_room_choice(game_state.dungeon, game_state.rooms@, r),
            HeroGoal::RestAtSpawn(_) => r is None,
            HeroGoal::Retreat => entrance_room_result(game_state.rooms@, r),
        },
{
    match goal {
        HeroGoal::DestroyHeart => find_room_by_type(game_state, "dungeon_heart"),
        HeroGoal::StealGold(_) => find_best_room_by_priority(
            hero_pos,
            treasury_priority_positive,
            "treasury",
            game_state,
        ),
        HeroGoal::KillCreatures(_) => {
            let mut room_types: Vec<String> = Vec::new();
            room_types.push(crate::tiles::owned("lair"));
            room_types.push(crate::tiles::owned("training_hall"));
            assert(crate::campaign::strs(room_types@) =~= seq!["lair"@, "training_hall"@]);
            find_room_with_creatures(hero_pos, &room_types, game_state)
        },
        HeroGoal::SabotageRoom(room_id) => Some(room_id),
        HeroGoal::Explore => find_unexplored_room(game_state),
        HeroGoal::RestAtSpawn(_) => None,
        HeroGoal::Retreat => find_entrance_room(game_state),
    }
}

/// No secondary goal sends a hero at the heart.
proof fn lemma_secondary_not_heart(names: Seq<String>, gold_stolen: i32, kills: u32, tier: u32)
    ensures
        secondary_goal(names, gold_stolen, kills, tier) != HeroGoal::DestroyHeart,
    decreases names.len(),
{
    if names.len() > 0 {
        lemma_secondary_not_heart(names.drop_first(), gold_stolen, kills, tier);
    }
}

/// A hero whose primary goal is to kill creatures, and that neither
/// retreats nor gives way to overwhelming odds (or fights to the death),
/// hunts until it has killed its tier's number of creatures (3, 8, 15, 25 or
/// 50 for tiers 1 to 5, else 10) and then takes up its first open secondary
/// goal. Such a hero never goes for the heart.
pub proof fn killers_hunt_to_their_target(
    threat: ThreatLevel,
    heart_alive: bool,
    gold_stolen: i32,
    kills: u32,
    h: HeroGoalProfile,
)
    requires
        h.primary_goal@ == "kill_creatures"@,
        threat != ThreatLevel::Overwhelming || h.will_fight_to_death,
    ensures
        ({
            let n: u32 = if h.tier == 1 {
                3
            } else if h.tier == 2 {
                8
            } else if h.tier == 3 {
                15
            } else if h.tier == 4 {
                25
            } else if h.tier == 5 {
                50
            } else {
                10
            };
            &&& kills < n ==> hero_goal(threat, heart_alive, gold_stolen, kills, Some(h), false)
                == HeroGoal::KillCreatures(n)
            &&& kills >= n ==> hero_goal(threat, heart_alive, gold_stolen, kills, Some(h), false) == secondary_goal(
                h.secondary_goals@,
                gold_stolen,
                kills,
                h.tier,
            )
        }),
        hero_goal(threat, heart_alive, gold_stolen, kills, Some(h), false) != HeroGoal::DestroyHeart,
{
    reveal_strlit("kill_creatures");
    reveal_strlit("destroy_heart");
    reveal_strlit("steal_gold");
    assert("kill_creatures"@.len() == 14);
    assert("destroy_heart"@.len() == 13);
    assert("steal_gold"@.len() == 10);
    assert(h.primary_goal@ != "destroy_heart"@);
    assert(h.primary_goal@ != "steal_gold"@);
    lemma_secondary_not_heart(h.secondary_goals@, gold_stolen, kills, h.tier);
}

} // verus!
