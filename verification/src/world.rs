//! The game world that the AI and rule systems read and change: the dungeon
//! grid, the entities on it, the detected rooms, the player's purse and the
//! rival keepers.
use vstd::prelude::*;
use crate::tiles::{TilePos, TileState, OwnerId, Ownership, ownership_of, owned, str_eq};
use crate::grid::{Grid, cells, grid_wf, positioned, in_bounds};
use crate::scenario::ScenarioRuntime;
use crate::campaign::CampaignProgress;
use crate::hero_ai::HeroGoal;

verus! {

/// What a creature is currently doing. The AI systems of this crate send
/// creatures somewhere; every other task is carried by the code that the task
/// system gives it.
#[derive(Clone, Copy, Debug, PartialEq, Eq, Structural)]
pub enum Task {
    MoveTo(TilePos),
    /// Working in the room with this id, at this tile.
    Work(usize, TilePos),
    Other(u32),
}

/// The state of a creature entity: its kind and level, its task and path,
/// and its timers in milliseconds (it takes a step of its path once every
/// `move_interval_ms`, and `task_time_ms` measures its work at a task).
#[derive(Debug)]
pub struct CreatureState {
    pub creature_id: String,
    pub level: u32,
    pub current_task: Option<Task>,
    pub current_path: Option<Vec<TilePos>>,
    pub move_timer_ms: u64,
    pub move_interval_ms: u64,
    pub task_time_ms: u64,
}

/// The state of a hero entity: its loot and kills, whether it guards its
/// spawn, its goal and where it is heading, how far it has dug into the wall
/// in its way, when it takes its next step (timers in milliseconds), and
/// whether it sits in the player's prison and how far it has been turned
/// there (in thousandths).
#[derive(Debug)]
pub struct HeroState {
    pub hero_id: String,
    pub gold_stolen: i32,
    pub kills: u32,
    pub is_defender: bool,
    pub spawn_pos: TilePos,
    pub current_goal: HeroGoal,
    pub target_pos: Option<TilePos>,
    pub target_room_id: Option<usize>,
    pub current_path: Option<Vec<TilePos>>,
    pub can_dig: bool,
    pub is_fleeing: bool,
    pub is_digging: bool,
    pub dig_timer_ms: u64,
    pub max_dig_time_ms: u64,
    pub move_timer_ms: u64,
    pub move_interval_ms: u64,
    pub is_captured: bool,
    pub is_converted: bool,
    pub conversion_progress_permille: u32,
    pub max_health: i32,
}

/// A building standing on the map (a dungeon heart, a hero building, ...).
#[derive(Debug)]
pub struct StructureState {
    pub building_id: String,
    pub health: i32,
}

/// A pile of a resource lying on the floor.
#[derive(Debug)]
pub struct ResourcePile {
    pub resource_type: String,
    pub amount: i32,
}

/// The kind of an entity, with its kind-specific state.
#[derive(Debug)]
pub enum EntityType {
    Creature(CreatureState),
    Hero(HeroState),
    Structure(StructureState),
    ResourcePile(ResourcePile),
}

/// Anything that stands on the map.
#[derive(Debug)]
pub struct Entity {
    pub id: u64,
    pub pos: TilePos,
    pub owner: OwnerId,
    pub health: i32,
    pub entity_type: EntityType,
}

impl Entity {
    /// The entity still has health left.
    pub fn is_alive(&self) -> (r: bool)
        ensures
            r == (self.health > 0),
    {
        self.health > 0
    }

    /// The entity is a creature.
    pub fn is_creature(&self) -> (r: bool)
        ensures
            r == (self.entity_type is Creature),
    {
        match &self.entity_type {
            EntityType::Creature(_) => true,
            _ => false,
        }
    }
}

/// A detected room: a contiguous set of claimed tiles of one room type.
#[derive(Debug)]
pub struct Room {
    pub id: usize,
    pub room_type: String,
    pub tiles: Vec<TilePos>,
    pub active: bool,
}

/// Sum of the x coordinates of the positions.
pub open spec fn sum_x(ps: Seq<TilePos>) -> int
    decreases ps.len(),
{
    if ps.len() == 0 {
        0
    } else {
        sum_x(ps.drop_last()) + ps.last().x
    }
}

/// Sum of the y coordinates of the positions.
pub open spec fn sum_y(ps: Seq<TilePos>) -> int
    decreases ps.len(),
{
    if ps.len() == 0 {
        0
    } else {
        sum_y(ps.drop_last()) + ps.last().y
    }
}

/// Integer division rounding toward zero, as Rust's `/` does.
pub open spec fn div_toward_zero(a: int, b: int) -> int {
    if a >= 0 {
        a / b
    } else {
        -((-a) / b)
    }
}

/// Every partial sum of the coordinates fits in an `i32`.
pub open spec fn sums_fit(ps: Seq<TilePos>) -> bool {
    forall|k: int|
        0 <= k <= ps.len() ==> i32::MIN <= #[trigger] sum_x(ps.take(k)) <= i32::MAX && i32::MIN
            <= sum_y(ps.take(k)) <= i32::MAX
}

impl Room {
    /// Create a new room instance (inactive).
    pub fn new(id: usize, room_type: String, tiles: Vec<TilePos>) -> (r: Room)
        ensures
            r.id == id,
            r.room_type@ == room_type@,
            r.tiles@ == tiles@,
            !r.active,
    {
        Room { id, room_type, tiles, active: false }
    }

    /// Get the number of tiles in this room.
    pub fn size(&self) -> (n: usize)
        ensures
            n == self.tiles@.len(),
    {
        self.tiles.len()
    }

    /// The center of the room: the average of its tile positions (each
    /// coordinate rounded toward zero), or the origin for an empty room.
    pub fn get_center(&self) -> (c: TilePos)
        requires
            self.tiles@.len() <= i32::MAX,
            sums_fit(self.tiles@),
        ensures
            self.tiles@.len() == 0 ==> c.x == 0 && c.y == 0,
            self.tiles@.len() > 0 ==> c.x == div_toward_zero(sum_x(self.tiles@), self.tiles@.len() as int)
                && c.y == div_toward_zero(sum_y(self.tiles@), self.tiles@.len() as int),
    {
        let n = self.tiles.len();
        if n == 0 {
            return TilePos::new(0, 0);
        }
        let mut sx: i32 = 0;
        let mut sy: i32 = 0;
        let mut i: usize = 0;
        while i < n
            invariant
                n == self.tiles@.len(),
                i <= n,
                sums_fit(self.tiles@),
                sx == sum_x(self.tiles@.take(i as int)),
                sy == sum_y(self.tiles@.take(i as int)),
            decreases n - i,
        {
            assert(self.tiles@.take(i + 1).drop_last() =~= self.tiles@.take(i as int));
            assert(i32::MIN <= sum_x(self.tiles@.take(i + 1)) <= i32::MAX);
            assert(i32::MIN <= sum_y(self.tiles@.take(i + 1)) <= i32::MAX);
            sx = sx + self.tiles[i].x;
            sy = sy + self.tiles[i].y;
            i = i + 1;
        }
        assert(self.tiles@.take(n as int) =~= self.tiles@);
        let count = n as i32;
        let cx: i32 = if sx >= 0 {
            sx / count
        } else {
            -((-(sx as i64)) / (count as i64)) as i32
        };
        let cy: i32 = if sy >= 0 {
            sy / count
        } else {
            -((-(sy as i64)) / (count as i64)) as i32
        };
        TilePos::new(cx, cy)
    }
}

/// The dungeon: its grid and the grid's dimensions.
#[derive(Debug)]
pub struct Dungeon {
    pub grid: Grid,
    pub width: usize,
    pub height: usize,
}

/// The grid is a non-empty rectangle of the recorded dimensions, and every
/// tile records its own position.
pub open spec fn dungeon_wf(d: Dungeon) -> bool {
    &&& grid_wf(cells(&d.grid))
    &&& positioned(cells(&d.grid))
    &&& d.grid@.len() == d.height
    &&& d.grid@[0]@.len() == d.width
}

/// All tiles of a grid, row after row.
pub open spec fn flat_tiles(g: Seq<Seq<TileState>>) -> Seq<TileState>
    decreases g.len(),
{
    if g.len() == 0 {
        Seq::empty()
    } else {
        flat_tiles(g.drop_last()) + g.last()
    }
}

/// Taking one more row appends that row to the flattened tiles.
pub proof fn lemma_flat_tiles_take(g: Seq<Seq<TileState>>, y: int)
    requires
        0 <= y < g.len(),
    ensures
        flat_tiles(g.take(y + 1)) == flat_tiles(g.take(y)) + g[y],
{
    assert(g.take(y + 1).drop_last() =~= g.take(y));
}

/// Every flattened tile is a tile of the grid.
pub proof fn lemma_flat_tile_cell(g: Seq<Seq<TileState>>, k: int)
    requires
        0 <= k < flat_tiles(g).len(),
    ensures
        exists|y: int, x: int| 0 <= y < g.len() && 0 <= x < g[y].len() && flat_tiles(g)[k] == g[y][x],
    decreases g.len(),
{
    let rest = flat_tiles(g.drop_last());
    if k < rest.len() {
        lemma_flat_tile_cell(g.drop_last(), k);
        let (y, x) = choose|y: int, x: int|
            0 <= y < g.drop_last().len() && 0 <= x < g.drop_last()[y].len() && rest[k] == g.drop_last()[y][x];
        assert(flat_tiles(g)[k] == g[y][x]);
    } else {
        let y = g.len() - 1;
        let x = k - rest.len();
        assert(flat_tiles(g)[k] == g[y][x]);
    }
}

/// `pos` lies on the grid of the dungeon.
pub open spec fn on_grid(d: Dungeon, pos: TilePos) -> bool {
    0 <= pos.x < d.width && 0 <= pos.y < d.height
}

/// The tile at `pos` (meaningful when `on_grid(d, pos)`).
pub open spec fn tile_at(d: Dungeon, pos: TilePos) -> TileState {
    d.grid@[pos.y as int]@[pos.x as int]
}

impl Dungeon {
    /// The tile at `pos`, if it lies on the grid.
    pub fn get_tile(&self, pos: TilePos) -> (r: Option<&TileState>)
        requires
            dungeon_wf(*self),
        ensures
            r is Some <==> on_grid(*self, pos),
            r is Some ==> *r->0 == tile_at(*self, pos),
    {
        if pos.x < 0 || pos.y < 0 {
            return None;
        }
        let x = pos.x as usize;
        let y = pos.y as usize;
        if y >= self.height || x >= self.width {
            return None;
        }
        assert(self.grid@[y as int]@.len() == self.width) by {
            assert(cells(&self.grid)[y as int].len() == cells(&self.grid)[0].len());
        }
        Some(&self.grid[y][x])
    }
}

/// `after` is `before` with its type, ownership, resources, dig mark and room
/// replaced as a fresh claim by `owner` as a tile of `tile_type`.
pub open spec fn claimed_as(before: TileState, after: TileState, tile_type: Seq<char>, owner: OwnerId) -> bool {
    &&& after.tile_type@ == tile_type
    &&& after.owner == owner
    &&& after.ownership == ownership_of(owner)
    &&& after.resources_remaining is None
    &&& !after.marked_for_dig
    &&& after.room_id is None
    &&& after.pos == before.pos
    &&& after.fog_state == before.fog_state
}

/// Two grids agree everywhere but at `pos`, and have the same shape.
pub open spec fn same_but_at(a: Seq<Seq<TileState>>, b: Seq<Seq<TileState>>, pos: TilePos) -> bool {
    &&& a.len() == b.len()
    &&& forall|y: int| 0 <= y < a.len() ==> #[trigger] a[y].len() == b[y].len()
    &&& forall|y: int, x: int|
        #![trigger b[y][x]]
        0 <= y < a.len() && 0 <= x < a[y].len() && !(x == pos.x && y == pos.y) ==> b[y][x] == a[y][x]
}

impl Dungeon {
    /// Claim the tile at `pos` for `owner` as a tile of `tile_type`: its
    /// resources, dig mark and room are cleared.
    pub fn claim_tile(&mut self, pos: TilePos, tile_type: &str, owner: OwnerId)
        requires
            dungeon_wf(*old(self)),
            on_grid(*old(self), pos),
        ensures
            dungeon_wf(*final(self)),
            final(self).width == old(self).width,
            final(self).height == old(self).height,
            same_but_at(cells(&old(self).grid), cells(&final(self).grid), pos),
            claimed_as(tile_at(*old(self), pos), tile_at(*final(self), pos), tile_type@, owner),
    {
        let ghost before = cells(&self.grid);
        let x = pos.x as usize;
        let y = pos.y as usize;
        assert(self.grid@[y as int]@.len() == self.width) by {
            assert(cells(&self.grid)[y as int].len() == cells(&self.grid)[0].len());
        }
        let tile = &mut self.grid[y][x];
        tile.tile_type = owned(tile_type);
        tile.resources_remaining = None;
        tile.marked_for_dig = false;
        tile.room_id = None;
        tile.set_owner(owner);
        proof {
            let after = cells(&self.grid);
            assert(same_but_at(before, after, pos));
            assert forall|yy: int| 0 <= yy < after.len() implies #[trigger] after[yy].len()
                == after[0].len() by {
                assert(before[yy].len() == before[0].len());
            }
            assert forall|xx: int, yy: int| #![trigger after[yy][xx]] in_bounds(after, xx, yy)
                implies after[yy][xx].pos == (TilePos { x: xx as i32, y: yy as i32 }) by {
                assert(before[yy].len() == before[0].len());
                assert(in_bounds(before, xx, yy));
            }
        }
    }
}

/// How urgent a message to the player is.
#[derive(Clone, Copy, Debug, PartialEq, Eq, Structural)]
pub enum NoticeLevel {
    Info,
    Success,
    Warning,
    Danger,
}

/// A message shown to the player.
#[derive(Debug)]
pub struct Notice {
    pub level: NoticeLevel,
    pub message: String,
}

/// The player's resources.
#[derive(Clone, Copy, Debug, PartialEq, Eq, Structural)]
pub struct PlayerState {
    pub gold: i32,
    pub mana: i32,
    pub max_mana: i32,
    pub food: i32,
    pub materials: i32,
    pub claimed_tile_count: u32,
}

/// What a rival keeper wants and how it is configured. Its timers are kept
/// in milliseconds.
#[derive(Debug)]
pub struct RivalKeeperAiState {
    pub owner: OwnerId,
    pub ai_profile: String,
    pub desired_rooms: Vec<String>,
    pub preferred_creatures: Vec<String>,
    pub min_garrison: usize,
    pub raid_size: usize,
    pub dig_batch: usize,
    pub room_size: usize,
    pub next_decision_time_ms: i64,
    pub next_attack_time_ms: i64,
    pub attack_cooldown_ms: i64,
    pub attack_cooldown_growth_permille: u32,
    pub first_attack_delay_ms: i64,
}

/// The room types, spells and traps the player has unlocked during play.
#[derive(Debug)]
pub struct PlayerUnlocks {
    pub rooms: Vec<String>,
    pub spells: Vec<String>,
    pub traps: Vec<String>,
}

/// A hero building's timer for one kind of hero, in milliseconds.
#[derive(Debug)]
pub struct SpawnTimer {
    pub hero_id: String,
    pub time_until_spawn_ms: i64,
}

/// A building of the heroes' town: its type, where it stands, the entity
/// that stands for it on the map (if it was found), and its spawn timers.
#[derive(Debug)]
pub struct HeroBuildingState {
    pub building_type: String,
    pub pos: TilePos,
    pub entity_id: Option<u64>,
    pub spawn_timers: Vec<SpawnTimer>,
}

/// The heroes' town of the map, when the map has one.
#[derive(Debug)]
pub struct HeroBaseState {
    pub enabled: bool,
    pub buildings: Vec<HeroBuildingState>,
}

/// Some entity on the map has the id `id`.
pub open spec fn entity_exists(es: Seq<Entity>, id: u64) -> bool {
    exists|i: int| 0 <= i < es.len() && (#[trigger] es[i]).id == id
}

/// The heroes' town is defeated: none of its buildings has an entity on the
/// map any more.
pub open spec fn base_defeated(b: HeroBaseState, es: Seq<Entity>) -> bool {
    forall|k: int|
        0 <= k < b.buildings@.len() ==> match (#[trigger] b.buildings@[k]).entity_id {
            Some(id) => !entity_exists(es, id),
            None => true,
        }
}

impl HeroBaseState {
    /// Whether the heroes' town is defeated: none of its buildings has an
    /// entity on the map any more.
    pub fn is_defeated(&self, entities: &Vec<Entity>) -> (r: bool)
        ensures
            r == base_defeated(*self, entities@),
    {
        let mut k: usize = 0;
        while k < self.buildings.len()
            invariant
                k <= self.buildings@.len(),
                forall|j: int|
                    0 <= j < k ==> match (#[trigger] self.buildings@[j]).entity_id {
                        Some(id) => !entity_exists(entities@, id),
                        None => true,
                    },
            decreases self.buildings@.len() - k,
        {
            match self.buildings[k].entity_id {
                Some(id) => {
                    let mut i: usize = 0;
                    while i < entities.len()
                        invariant
                            k < self.buildings@.len(),
                            self.buildings@[k as int].entity_id == Some(id),
                            i <= entities@.len(),
                            forall|t: int| 0 <= t < i ==> (#[trigger] entities@[t]).id != id,
                        decreases entities@.len() - i,
                    {
                        if entities[i].id == id {
                            assert(entities@[i as int].id == id);
                            assert(!base_defeated(*self, entities@)) by {
                                assert(self.buildings@[k as int].entity_id == Some(id));
                                assert(entity_exists(entities@, id));
                            }
                            return false;
                        }
                        i = i + 1;
                    }
                },
                None => {},
            }
            k = k + 1;
        }
        true
    }
}

/// The whole game state that the rule systems of this crate work on. Time is
/// counted in milliseconds of play.
#[derive(Debug)]
pub struct GameState {
    pub dungeon: Dungeon,
    pub entities: Vec<Entity>,
    pub rooms: Vec<Room>,
    pub rival_keepers: Vec<RivalKeeperAiState>,
    pub player: PlayerState,
    pub dungeon_heart_health: i32,
    pub paused: bool,
    pub game_over: bool,
    pub victory: bool,
    pub cheat_fog_enabled: bool,
    pub cheat_immortal_heart: bool,
    pub notifications: Vec<Notice>,
    pub time_elapsed_ms: u64,
    pub active_scenario_id: Option<String>,
    pub scenario_runtime: Option<ScenarioRuntime>,
    pub unlocks: PlayerUnlocks,
    pub campaign_progress: Option<CampaignProgress>,
    pub hero_base: HeroBaseState,
}

/// `b` differs from `a` at most in the tiles of the dungeon grid.
pub open spec fn same_but_grid(a: GameState, b: GameState) -> bool {
    &&& b.dungeon.width == a.dungeon.width
    &&& b.dungeon.height == a.dungeon.height
    &&& b.entities == a.entities
    &&& b.rooms == a.rooms
    &&& b.rival_keepers == a.rival_keepers
    &&& b.player == a.player
    &&& b.dungeon_heart_health == a.dungeon_heart_health
    &&& b.paused == a.paused
    &&& b.game_over == a.game_over
    &&& b.victory == a.victory
    &&& b.cheat_fog_enabled == a.cheat_fog_enabled
    &&& b.cheat_immortal_heart == a.cheat_immortal_heart
    &&& b.notifications == a.notifications
    &&& b.time_elapsed_ms == a.time_elapsed_ms
    &&& b.active_scenario_id == a.active_scenario_id
    &&& b.scenario_runtime == a.scenario_runtime
    &&& b.unlocks == a.unlocks
    &&& b.campaign_progress == a.campaign_progress
    &&& b.hero_base == a.hero_base
}

/// `b` differs from `a` at most in its entities.
pub open spec fn same_but_entities(a: GameState, b: GameState) -> bool {
    &&& b.dungeon == a.dungeon
    &&& b.rooms == a.rooms
    &&& b.rival_keepers == a.rival_keepers
    &&& b.player == a.player
    &&& b.dungeon_heart_health == a.dungeon_heart_health
    &&& b.paused == a.paused
    &&& b.game_over == a.game_over
    &&& b.victory == a.victory
    &&& b.cheat_fog_enabled == a.cheat_fog_enabled
    &&& b.cheat_immortal_heart == a.cheat_immortal_heart
    &&& b.notifications == a.notifications
    &&& b.time_elapsed_ms == a.time_elapsed_ms
    &&& b.active_scenario_id == a.active_scenario_id
    &&& b.scenario_runtime == a.scenario_runtime
    &&& b.unlocks == a.unlocks
    &&& b.campaign_progress == a.campaign_progress
    &&& b.hero_base == a.hero_base
}

/// `t` is the player's dungeon heart tile.
pub open spec fn player_heart_tile(t: TileState) -> bool {
    t.tile_type@ == "dungeon_heart"@ && t.ownership == Ownership::Player
}

/// The position of the first player's dungeon heart tile among `ts`.
pub open spec fn first_heart_pos(ts: Seq<TileState>) -> Option<TilePos>
    decreases ts.len(),
{
    if ts.len() == 0 {
        None
    } else {
        match first_heart_pos(ts.drop_last()) {
            Some(p) => Some(p),
            None => if player_heart_tile(ts.last()) {
                Some(ts.last().pos)
            } else {
                None
            },
        }
    }
}

impl GameState {
    /// The position of the player's dungeon heart: the first tile, row after
    /// row, that is a dungeon heart claimed by the player.
    pub fn find_dungeon_heart_position(&self) -> (r: Option<TilePos>)
        ensures
            r == first_heart_pos(flat_tiles(cells(&self.dungeon.grid))),
    {
        let ghost g = cells(&self.dungeon.grid);
        let mut found: Option<TilePos> = None;
        let mut y: usize = 0;
        while y < self.dungeon.grid.len()
            invariant
                g == cells(&self.dungeon.grid),
                y <= g.len(),
                found == first_heart_pos(flat_tiles(g.take(y as int))),
            decreases g.len() - y,
        {
            proof {
                lemma_flat_tiles_take(g, y as int);
            }
            let ghost prefix = flat_tiles(g.take(y as int));
            let mut x: usize = 0;
            while x < self.dungeon.grid[y].len()
                invariant
                    g == cells(&self.dungeon.grid),
                    y < g.len(),
                    x <= g[y as int].len(),
                    found == first_heart_pos(prefix + g[y as int].take(x as int)),
                decreases g[y as int].len() - x,
            {
                assert((prefix + g[y as int].take(x + 1)).drop_last() =~= prefix + g[y as int].take(
                    x as int,
                ));
                let tile = &self.dungeon.grid[y][x];
                if found.is_none() && str_eq(tile.tile_type.as_str(), "dungeon_heart")
                    && tile.ownership == Ownership::Player {
                    found = Some(tile.pos);
                }
                x = x + 1;
            }
            assert(g[y as int].take(g[y as int].len() as int) =~= g[y as int]);
            y = y + 1;
        }
        assert(g.take(g.len() as int) =~= g);
        found
    }
}

/// `after` is the creature `before` sent off on task `t` with no path yet.
pub open spec fn retasked(before: Entity, after: Entity, t: Task) -> bool {
    &&& after.id == before.id
    &&& after.pos == before.pos
    &&& after.owner == before.owner
    &&& after.health == before.health
    &&& match (before.entity_type, after.entity_type) {
        (EntityType::Creature(b), EntityType::Creature(a)) => {
            &&& a.creature_id == b.creature_id
            &&& a.level == b.level
            &&& a.current_task == Some(t)
            &&& a.current_path is None
        },
        _ => false,
    }
}

impl Entity {
    /// Give a creature a new task and drop its path.
    pub fn retask(&mut self, t: Task)
        requires
            old(self).entity_type is Creature,
        ensures
            retasked(*old(self), *final(self), t),
    {
        match &mut self.entity_type {
            EntityType::Creature(c) => {
                c.current_task = Some(t);
                c.current_path = None;
            },
            _ => {},
        }
    }
}

} // verus!
