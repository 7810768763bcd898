//! Rival keeper AI: what each computer-controlled keeper wants, and the moves
//! it makes on the map (claiming a room site, sending defenders and raiders).
use vstd::prelude::*;
use crate::tiles::{TilePos, TileState, OwnerId, Ownership, manhattan, hostile, str_eq};
use crate::grid::cells;
use crate::world::{
    GameState, Entity, EntityType, RivalKeeperAiState, Dungeon, flat_tiles, lemma_flat_tiles_take,
    dungeon_wf, on_grid, tile_at, claimed_as, same_but_grid, same_but_entities, retasked, Task,
    first_heart_pos,
};
use crate::grid::in_bounds;
use crate::campaign::{copy_strings, strs, holds_str, contains_str};
use crate::tiles::{cardinal_neighbors, cardinal_neighbors_spec, ownership_of};
use crate::imp_ai::{distinct_tiles, insert_tile};

verus! {

/// How far (Manhattan) from its own tiles a keeper defends.
pub const DEFENSE_RADIUS: i64 = 7;

/// What a rival keeper wants to do next.
#[derive(Debug)]
pub struct RivalKeeperPlan {
    pub owner: OwnerId,
    pub ai_profile: String,
    pub owned_creatures: usize,
    pub desired_rooms: Vec<String>,
    pub preferred_creatures: Vec<String>,
    pub wants_reinforcements: bool,
    pub wants_attack: bool,
    pub wants_digging: bool,
    pub wants_room: Option<String>,
    pub wants_defense: bool,
}

/// `e` is a creature of `owner`.
pub open spec fn owned_creature(e: Entity, owner: OwnerId) -> bool {
    e.owner == owner && e.entity_type is Creature
}

/// Number of creatures of `owner` among `es`.
pub open spec fn count_owned_creatures(es: Seq<Entity>, owner: OwnerId) -> nat
    decreases es.len(),
{
    if es.len() == 0 {
        0
    } else {
        count_owned_creatures(es.drop_last(), owner) + if owned_creature(es.last(), owner) {
            1nat
        } else {
            0nat
        }
    }
}

/// `t` is a room tile of `owner` of type `room`.
pub open spec fn owned_room_tile(t: TileState, owner: OwnerId, room: Seq<char>) -> bool {
    t.owner == owner && t.tile_type@ == room && t.ownership == Ownership::Enemy
}

/// Some tile of `ts` is a room tile of `owner` of type `room`.
pub open spec fn has_room_tile(ts: Seq<TileState>, owner: OwnerId, room: Seq<char>) -> bool
    decreases ts.len(),
{
    if ts.len() == 0 {
        false
    } else {
        has_room_tile(ts.drop_last(), owner, room) || owned_room_tile(ts.last(), owner, room)
    }
}

/// The smallest Manhattan distance from a tile of `owner` among `ts` to `pos`.
pub open spec fn min_owned_dist(ts: Seq<TileState>, owner: OwnerId, pos: TilePos) -> Option<int>
    decreases ts.len(),
{
    if ts.len() == 0 {
        None
    } else {
        let rest = min_owned_dist(ts.drop_last(), owner, pos);
        let t = ts.last();
        if t.owner == owner {
            let d = manhattan(t.pos, pos);
            match rest {
                Some(m) => Some(
                    if d < m {
                        d
                    } else {
                        m
                    },
                ),
                None => Some(d),
            }
        } else {
            rest
        }
    }
}

/// The position of the first tile of `owner` among `ts`.
pub open spec fn first_owned_pos(ts: Seq<TileState>, owner: OwnerId) -> Option<TilePos>
    decreases ts.len(),
{
    if ts.len() == 0 {
        None
    } else {
        match first_owned_pos(ts.drop_last(), owner) {
            Some(p) => Some(p),
            None => if ts.last().owner == owner {
                Some(ts.last().pos)
            } else {
                None
            },
        }
    }
}

/// All tiles of the dungeon of a state, row after row.
pub open spec fn state_tiles(state: GameState) -> Seq<TileState> {
    flat_tiles(cells(&state.dungeon.grid))
}

/// The owner holds a room of type `room`.
pub open spec fn owns_room(state: GameState, owner: OwnerId, room: Seq<char>) -> bool {
    has_room_tile(state_tiles(state), owner, room)
}

/// The distance from `pos` to the nearest tile of `owner`.
pub open spec fn nearest_owned(state: GameState, owner: OwnerId, pos: TilePos) -> Option<int> {
    min_owned_dist(state_tiles(state), owner, pos)
}

/// How close a threat is to the owner's tiles: some distance when `e` is
/// hostile to the owner and within the defense radius of its tiles.
pub open spec fn threat_key(state: GameState, owner: OwnerId, e: Entity) -> Option<int> {
    if hostile(e.owner, owner) {
        match nearest_owned(state, owner, e.pos) {
            Some(d) => if d <= DEFENSE_RADIUS {
                Some(d)
            } else {
                None
            },
            None => None,
        }
    } else {
        None
    }
}

/// The threat nearest to the owner's tiles among `es` (the first on ties),
/// with its distance.
pub open spec fn nearest_threat(state: GameState, owner: OwnerId, es: Seq<Entity>) -> Option<
    (TilePos, int),
>
    decreases es.len(),
{
    if es.len() == 0 {
        None
    } else {
        let best = nearest_threat(state, owner, es.drop_last());
        match threat_key(state, owner, es.last()) {
            Some(k) => match best {
                Some(b) => if k < b.1 {
                    Some((es.last().pos, k))
                } else {
                    best
                },
                None => Some((es.last().pos, k)),
            },
            None => best,
        }
    }
}

/// The first room of `desired` that the owner does not hold.
pub open spec fn first_missing_room(state: GameState, owner: OwnerId, desired: Seq<String>) -> Option<
    Seq<char>,
>
    decreases desired.len(),
{
    if desired.len() == 0 {
        None
    } else {
        match first_missing_room(state, owner, desired.drop_last()) {
            Some(r) => Some(r),
            None => if !owns_room(state, owner, desired.last()@) {
                Some(desired.last()@)
            } else {
                None
            },
        }
    }
}

/// Count the creatures that belong to `owner`.
pub fn count_creatures_of(state: &GameState, owner: OwnerId) -> (n: usize)
    ensures
        n == count_owned_creatures(state.entities@, owner),
{
    let mut n: usize = 0;
    let mut i: usize = 0;
    while i < state.entities.len()
        invariant
            i <= state.entities@.len(),
            n == count_owned_creatures(state.entities@.take(i as int), owner),
            n <= i,
        decreases state.entities@.len() - i,
    {
        assert(state.entities@.take(i + 1).drop_last() =~= state.entities@.take(i as int));
        if state.entities[i].owner == owner && state.entities[i].is_creature() {
            n = n + 1;
        }
        i = i + 1;
    }
    assert(state.entities@.take(state.entities@.len() as int) =~= state.entities@);
    n
}

/// Whether `owner` holds a room tile of type `room_id`.
pub fn owner_has_room(state: &GameState, owner: OwnerId, room_id: &str) -> (r: bool)
    ensures
        r == owns_room(*state, owner, room_id@),
{
    let ghost g = cells(&state.dungeon.grid);
    let mut found = false;
    let mut y: usize = 0;
    while y < state.dungeon.grid.len()
        invariant
            g == cells(&state.dungeon.grid),
            y <= g.len(),
            found == has_room_tile(flat_tiles(g.take(y as int)), owner, room_id@),
        decreases g.len() - y,
    {
        proof {
            lemma_flat_tiles_take(g, y as int);
        }
        let ghost prefix = flat_tiles(g.take(y as int));
        let mut x: usize = 0;
        while x < state.dungeon.grid[y].len()
            invariant
                g == cells(&state.dungeon.grid),
                y < g.len(),
                x <= g[y as int].len(),
                found == has_room_tile(prefix + g[y as int].take(x as int), owner, room_id@),
            decreases g[y as int].len() - x,
        {
            assert((prefix + g[y as int].take(x + 1)).drop_last() =~= prefix + g[y as int].take(
                x as int,
            ));
            let tile = &state.dungeon.grid[y][x];
            if tile.owner == owner && str_eq(tile.tile_type.as_str(), room_id) && tile.ownership
                == Ownership::Enemy {
                found = true;
            }
            x = x + 1;
        }
        assert(g[y as int].take(g[y as int].len() as int) =~= g[y as int]);
        y = y + 1;
    }
    assert(g.take(g.len() as int) =~= g);
    found
}

/// The first desired room that the owner does not hold yet.
pub fn missing_desired_room(state: &GameState, owner: OwnerId, desired_rooms: &Vec<String>) -> (r:
    Option<String>)
    ensures
        match r {
            Some(s) => first_missing_room(*state, owner, desired_rooms@) == Some(s@),
            None => first_missing_room(*state, owner, desired_rooms@) is None,
        },
{
    let mut i: usize = 0;
    while i < desired_rooms.len()
        invariant
            i <= desired_rooms@.len(),
            first_missing_room(*state, owner, desired_rooms@.take(i as int)) is None,
        decreases desired_rooms@.len() - i,
    {
        assert(desired_rooms@.take(i + 1).drop_last() =~= desired_rooms@.take(i as int));
        if !owner_has_room(state, owner, desired_rooms[i].as_str()) {
            proof {
                lemma_first_missing_prefix(*state, owner, desired_rooms@, i as int + 1);
            }
            return Some(desired_rooms[i].clone());
        }
        i = i + 1;
    }
    assert(desired_rooms@.take(desired_rooms@.len() as int) =~= desired_rooms@);
    None
}

/// Once a prefix has a missing room, the whole list has the same one.
proof fn lemma_first_missing_prefix(state: GameState, owner: OwnerId, desired: Seq<String>, k: int)
    requires
        0 <= k <= desired.len(),
        first_missing_room(state, owner, desired.take(k)) is Some,
    ensures
        first_missing_room(state, owner, desired) == first_missing_room(
            state,
            owner,
            desired.take(k),
        ),
    decreases desired.len() - k,
{
    if k < desired.len() {
        assert(desired.take(k + 1).drop_last() =~= desired.take(k));
        lemma_first_missing_prefix(state, owner, desired, k + 1);
    } else {
        assert(desired.take(k) =~= desired);
    }
}

/// The Manhattan distance from `pos` to the nearest tile of `owner`.
pub fn nearest_owned_distance(state: &GameState, owner: OwnerId, pos: TilePos) -> (r: Option<i64>)
    ensures
        match r {
            Some(d) => nearest_owned(*state, owner, pos) == Some(d as int),
            None => nearest_owned(*state, owner, pos) is None,
        },
{
    let ghost g = cells(&state.dungeon.grid);
    let mut best: Option<i64> = None;
    let mut y: usize = 0;
    while y < state.dungeon.grid.len()
        invariant
            g == cells(&state.dungeon.grid),
            y <= g.len(),
            match best {
                Some(d) => min_owned_dist(flat_tiles(g.take(y as int)), owner, pos) == Some(d as int),
                None => min_owned_dist(flat_tiles(g.take(y as int)), owner, pos) is None,
            },
        decreases g.len() - y,
    {
        proof {
            lemma_flat_tiles_take(g, y as int);
        }
        let ghost prefix = flat_tiles(g.take(y as int));
        let mut x: usize = 0;
        while x < state.dungeon.grid[y].len()
            invariant
                g == cells(&state.dungeon.grid),
                y < g.len(),
                x <= g[y as int].len(),
                match best {
                    Some(d) => min_owned_dist(prefix + g[y as int].take(x as int), owner, pos)
                        == Some(d as int),
                    None => min_owned_dist(prefix + g[y as int].take(x as int), owner, pos) is None,
                },
            decreases g[y as int].len() - x,
        {
            assert((prefix + g[y as int].take(x + 1)).drop_last() =~= prefix + g[y as int].take(
                x as int,
            ));
            let tile = &state.dungeon.grid[y][x];
            if tile.owner == owner {
                let d = tile.pos.manhattan_distance(&pos);
                best = match best {
                    Some(m) => Some(
                        if d < m {
                            d
                        } else {
                            m
                        },
                    ),
                    None => Some(d),
                };
            }
            x = x + 1;
        }
        assert(g[y as int].take(g[y as int].len() as int) =~= g[y as int]);
        y = y + 1;
    }
    assert(g.take(g.len() as int) =~= g);
    best
}

/// Whether `pos` lies within `radius` of a tile of `owner`.
pub fn is_near_owned_tile(state: &GameState, owner: OwnerId, pos: TilePos, radius: i64) -> (r: bool)
    ensures
        r == match nearest_owned(*state, owner, pos) {
            Some(d) => d <= radius,
            None => false,
        },
{
    match nearest_owned_distance(state, owner, pos) {
        Some(d) => d <= radius,
        None => false,
    }
}

/// The position of the threat nearest to the owner's tiles: a hostile entity
/// within the defense radius of them (the first on ties).
pub fn nearest_threat_position(state: &GameState, owner: OwnerId) -> (r: Option<TilePos>)
    ensures
        match nearest_threat(*state, owner, state.entities@) {
            Some(b) => r == Some(b.0),
            None => r is None,
        },
{
    let mut best: Option<(TilePos, i64)> = None;
    let mut i: usize = 0;
    while i < state.entities.len()
        invariant
            i <= state.entities@.len(),
            match nearest_threat(*state, owner, state.entities@.take(i as int)) {
                Some(b) => best matches Some(c) && c.0 == b.0 && c.1 == b.1,
                None => best is None,
            },
        decreases state.entities@.len() - i,
    {
        assert(state.entities@.take(i + 1).drop_last() =~= state.entities@.take(i as int));
        let entity = &state.entities[i];
        if entity.owner.is_hostile_to(&owner) {
            if let Some(d) = nearest_owned_distance(state, owner, entity.pos) {
                if d <= DEFENSE_RADIUS {
                    best = match best {
                        Some(b) => if d < b.1 {
                            Some((entity.pos, d))
                        } else {
                            Some(b)
                        },
                        None => Some((entity.pos, d)),
                    };
                }
            }
        }
        i = i + 1;
    }
    assert(state.entities@.take(state.entities@.len() as int) =~= state.entities@);
    match best {
        Some(b) => Some(b.0),
        None => None,
    }
}

/// The position of the first tile (row after row) that belongs to `owner`.
pub fn find_owned_spawn_tile(state: &GameState, owner: OwnerId) -> (r: Option<TilePos>)
    ensures
        r == first_owned_pos(state_tiles(*state), owner),
{
    let ghost g = cells(&state.dungeon.grid);
    let mut found: Option<TilePos> = None;
    let mut y: usize = 0;
    while y < state.dungeon.grid.len()
        invariant
            g == cells(&state.dungeon.grid),
            y <= g.len(),
            found == first_owned_pos(flat_tiles(g.take(y as int)), owner),
        decreases g.len() - y,
    {
        proof {
            lemma_flat_tiles_take(g, y as int);
        }
        let ghost prefix = flat_tiles(g.take(y as int));
        let mut x: usize = 0;
        while x < state.dungeon.grid[y].len()
            invariant
                g == cells(&state.dungeon.grid),
                y < g.len(),
                x <= g[y as int].len(),
                found == first_owned_pos(prefix + g[y as int].take(x as int), owner),
            decreases g[y as int].len() - x,
        {
            assert((prefix + g[y as int].take(x + 1)).drop_last() =~= prefix + g[y as int].take(
                x as int,
            ));
            let tile = &state.dungeon.grid[y][x];
            if found.is_none() && tile.owner == owner {
                found = Some(tile.pos);
            }
            x = x + 1;
        }
        assert(g[y as int].take(g[y as int].len() as int) =~= g[y as int]);
        y = y + 1;
    }
    assert(g.take(g.len() as int) =~= g);
    found
}

/// The plan of one keeper in a state.
pub open spec fn plan_of(state: GameState, k: RivalKeeperAiState, p: RivalKeeperPlan) -> bool {
    let owned = count_owned_creatures(state.entities@, k.owner);
    let missing = first_missing_room(state, k.owner, k.desired_rooms@);
    &&& p.owner == k.owner
    &&& p.ai_profile@ == k.ai_profile@
    &&& p.owned_creatures == owned
    &&& strs(p.desired_rooms@) == strs(k.desired_rooms@)
    &&& strs(p.preferred_creatures@) == strs(k.preferred_creatures@)
    &&& p.wants_reinforcements == (owned < k.min_garrison)
    &&& p.wants_attack == (owned >= k.min_garrison && k.next_attack_time_ms <= 0)
    &&& p.wants_digging == (missing is Some)
    &&& match p.wants_room {
        Some(s) => missing == Some(s@),
        None => missing is None,
    }
    &&& p.wants_defense == (nearest_threat(state, k.owner, state.entities@) is Some)
}

/// What every rival keeper wants: reinforcements below its garrison size, an
/// attack once the garrison stands and its attack timer ran out, digging while
/// a desired room is missing, and defense while a threat is near its tiles.
pub fn plan_rival_keepers(state: &GameState) -> (plans: Vec<RivalKeeperPlan>)
    ensures
        plans@.len() == state.rival_keepers@.len(),
        forall|i: int|
            0 <= i < plans@.len() ==> plan_of(*state, state.rival_keepers@[i], #[trigger] plans@[i]),
{
    let mut plans: Vec<RivalKeeperPlan> = Vec::new();
    let mut i: usize = 0;
    while i < state.rival_keepers.len()
        invariant
            i <= state.rival_keepers@.len(),
            plans@.len() == i,
            forall|j: int|
                0 <= j < i ==> plan_of(*state, state.rival_keepers@[j], #[trigger] plans@[j]),
        decreases state.rival_keepers@.len() - i,
    {
        let keeper = &state.rival_keepers[i];
        let owned = count_creatures_of(state, keeper.owner);
        let missing = missing_desired_room(state, keeper.owner, &keeper.desired_rooms);
        let wants_digging = missing.is_some();
        let plan = RivalKeeperPlan {
            owner: keeper.owner,
            ai_profile: keeper.ai_profile.clone(),
            owned_creatures: owned,
            desired_rooms: copy_strings(&keeper.desired_rooms),
            preferred_creatures: copy_strings(&keeper.preferred_creatures),
            wants_reinforcements: owned < keeper.min_garrison,
            wants_attack: owned >= keeper.min_garrison && keeper.next_attack_time_ms <= 0,
            wants_digging,
            wants_room: missing,
            wants_defense: nearest_threat_position(state, keeper.owner).is_some(),
        };
        plans.push(plan);
        i = i + 1;
    }
    plans
}

/// The smallest side of a square holding at least `tile_count` tiles.
pub open spec fn is_square_side(tile_count: int, side: int) -> bool {
    &&& side >= 0
    &&& side * side >= tile_count
    &&& (side == 0 || (side - 1) * (side - 1) < tile_count)
}

/// The side of the smallest square holding `tile_count` tiles (the ceiling
/// of its square root).
pub fn square_side_for_tiles(tile_count: usize) -> (side: usize)
    ensures
        is_square_side(tile_count as int, side as int),
{
    let n = tile_count as u128;
    let mut side: u128 = 0;
    while side * side < n
        invariant
            n == tile_count,
            n < 0x1_0000_0000_0000_0000,
            side <= 0x1_0000_0000,
            side == 0 || (side - 1) * (side - 1) < n,
            side * side <= 0x1_0000_0000_0000_0000,
        decreases n - side,
    {
        assert(side < 0x1_0000_0000) by (nonlinear_arith)
            requires
                side * side < n,
                n < 0x1_0000_0000_0000_0000,
                side <= 0x1_0000_0000,
        ;
        assert(side < n) by (nonlinear_arith)
            requires
                side * side < n,
        ;
        assert((side + 1) * (side + 1) <= 0x1_0000_0000_0000_0000) by (nonlinear_arith)
            requires
                side < 0x1_0000_0000,
        ;
        side = side + 1;
    }
    assert(side <= tile_count) by (nonlinear_arith)
        requires
            side == 0 || (side - 1) * (side - 1) < n,
            n == tile_count,
    ;
    side as usize
}

/// The tile at `(x, y)` is claimed floor of `owner`.
pub open spec fn cell_ok_at(d: Dungeon, owner: OwnerId, x: int, y: int) -> bool {
    let p = TilePos { x: x as i32, y: y as i32 };
    &&& 0 <= x < d.width
    &&& 0 <= y < d.height
    &&& tile_at(d, p).owner == owner
    &&& tile_at(d, p).tile_type@ == "claimed_floor"@
}

/// `p` lies in the `side` by `side` square with top-left corner `(x, y)`.
pub open spec fn in_square(p: TilePos, x: int, y: int, side: int) -> bool {
    x <= p.x < x + side && y <= p.y < y + side
}

/// Every tile of the square at `(x, y)` is claimed floor of `owner`.
pub open spec fn site_ok(d: Dungeon, owner: OwnerId, x: int, y: int, side: int) -> bool {
    forall|cx: int, cy: int|
        x <= cx < x + side && y <= cy < y + side ==> #[trigger] cell_ok_at(d, owner, cx, cy)
}

/// The square at `(x, y)` fits on the grid.
pub open spec fn site_candidate(d: Dungeon, x: int, y: int, side: int) -> bool {
    0 <= y <= d.height - side && 0 <= x <= d.width - side
}

/// `(x, y)` is the first site, row after row, whose square is all claimed
/// floor of `owner`.
pub open spec fn first_site(d: Dungeon, owner: OwnerId, side: int, x: int, y: int) -> bool {
    &&& site_candidate(d, x, y, side)
    &&& site_ok(d, owner, x, y, side)
    &&& forall|x2: int, y2: int|
        site_candidate(d, x2, y2, side) && (y2 < y || (y2 == y && x2 < x)) ==> !#[trigger] site_ok(
            d,
            owner,
            x2,
            y2,
            side,
        )
}

/// Some square of the given side is all claimed floor of `owner`.
pub open spec fn any_site(d: Dungeon, owner: OwnerId, side: int) -> bool {
    exists|x: int, y: int| site_candidate(d, x, y, side) && #[trigger] site_ok(d, owner, x, y, side)
}

/// The positions listed are exactly those of the square at `(x, y)`.
pub open spec fn lists_square(v: Seq<TilePos>, x: int, y: int, side: int) -> bool {
    &&& forall|k: int| 0 <= k < v.len() ==> in_square(#[trigger] v[k], x, y, side)
    &&& forall|p: TilePos| in_square(p, x, y, side) ==> #[trigger] v.contains(p)
}

/// The positions of the square at `(x, y)` if all of them are claimed floor
/// of `owner`.
fn site_tiles(d: &Dungeon, owner: OwnerId, x: usize, y: usize, side: usize) -> (r: Option<
    Vec<TilePos>,
>)
    requires
        dungeon_wf(*d),
        x + side <= d.width,
        y + side <= d.height,
    ensures
        r is Some <==> site_ok(*d, owner, x as int, y as int, side as int),
        r is Some ==> lists_square(r->0@, x as int, y as int, side as int),
{
    let mut positions: Vec<TilePos> = Vec::new();
    let mut dy: usize = 0;
    while dy < side
        invariant
            dungeon_wf(*d),
            x + side <= d.width,
            y + side <= d.height,
            dy <= side,
            forall|cx: int, cy: int|
                x <= cx < x + side && y <= cy < y + dy ==> #[trigger] cell_ok_at(*d, owner, cx, cy),
            forall|k: int|
                0 <= k < positions@.len() ==> in_square(#[trigger] positions@[k], x as int, y as int, side as int),
            forall|p: TilePos|
                x <= p.x < x + side && y <= p.y < y + dy ==> #[trigger] positions@.contains(p),
        decreases side - dy,
    {
        let mut dx: usize = 0;
        while dx < side
            invariant
                dungeon_wf(*d),
                x + side <= d.width,
                y + side <= d.height,
                dy < side,
                dx <= side,
                forall|cx: int, cy: int|
                    x <= cx < x + side && y <= cy < y + dy ==> #[trigger] cell_ok_at(*d, owner, cx, cy),
                forall|cx: int| x <= cx < x + dx ==> #[trigger] cell_ok_at(*d, owner, cx, y + dy),
                forall|k: int|
                    0 <= k < positions@.len() ==> in_square(
                        #[trigger] positions@[k],
                        x as int,
                        y as int,
                        side as int,
                    ),
                forall|p: TilePos|
                    x <= p.x < x + side && y <= p.y < y + dy ==> #[trigger] positions@.contains(p),
                forall|p: TilePos|
                    x <= p.x < x + dx && p.y == y + dy ==> #[trigger] positions@.contains(p),
            decreases side - dx,
        {
            let pos = TilePos::new((x + dx) as i32, (y + dy) as i32);
            let ok = match d.get_tile(pos) {
                Some(tile) => tile.owner == owner && str_eq(tile.tile_type.as_str(), "claimed_floor"),
                None => false,
            };
            if !ok {
                assert(!cell_ok_at(*d, owner, x + dx, y + dy));
                return None;
            }
            let ghost before = positions@;
            positions.push(pos);
            assert forall|p: TilePos| x <= p.x < x + side && y <= p.y < y + dy implies #[trigger] positions@.contains(p) by {
                assert(before.contains(p));
                let k = choose|k: int| 0 <= k < before.len() && before[k] == p;
                assert(positions@[k] == p);
            }
            assert forall|p: TilePos| x <= p.x < x + dx + 1 && p.y == y + dy implies #[trigger] positions@.contains(p) by {
                if p.x < x + dx {
                    assert(before.contains(p));
                    let k = choose|k: int| 0 <= k < before.len() && before[k] == p;
                    assert(positions@[k] == p);
                } else {
                    assert(p == pos);
                    assert(positions@[before.len() as int] == p);
                }
            }
            dx = dx + 1;
        }
        dy = dy + 1;
    }
    Some(positions)
}

/// The tiles of the first square of `side` by `side` tiles (scanning rows top
/// to bottom, each left to right) that are all claimed floor of `owner`.
pub fn find_room_site(state: &GameState, owner: OwnerId, side: usize) -> (r: Option<Vec<TilePos>>)
    requires
        dungeon_wf(state.dungeon),
    ensures
        r is Some <==> any_site(state.dungeon, owner, side as int),
        r is Some ==> exists|x: int, y: int|
            first_site(state.dungeon, owner, side as int, x, y) && #[trigger] lists_square(
                r->0@,
                x,
                y,
                side as int,
            ),
{
    let d = &state.dungeon;
    if side > d.width || side > d.height {
        return None;
    }
    let mut y: usize = 0;
    while y <= d.height - side
        invariant
            d == &state.dungeon,
            dungeon_wf(*d),
            side <= d.width,
            side <= d.height,
            y <= d.height - side + 1,
            forall|x2: int, y2: int|
                site_candidate(*d, x2, y2, side as int) && y2 < y ==> !#[trigger] site_ok(
                    *d,
                    owner,
                    x2,
                    y2,
                    side as int,
                ),
        decreases d.height - side + 1 - y,
    {
        let mut x: usize = 0;
        while x <= d.width - side
            invariant
                d == &state.dungeon,
                dungeon_wf(*d),
                side <= d.width,
                side <= d.height,
                y <= d.height - side,
                x <= d.width - side + 1,
                forall|x2: int, y2: int|
                    site_candidate(*d, x2, y2, side as int) && (y2 < y || (y2 == y && x2 < x))
                        ==> !#[trigger] site_ok(*d, owner, x2, y2, side as int),
            decreases d.width - side + 1 - x,
        {
            if let Some(tiles) = site_tiles(d, owner, x, y, side) {
                assert(first_site(*d, owner, side as int, x as int, y as int));
                assert(lists_square(tiles@, x as int, y as int, side as int));
                return Some(tiles);
            }
            x = x + 1;
        }
        y = y + 1;
    }
    None
}

/// `b` is the grid `a` with every tile of the square at `(x, y)` claimed for
/// `owner` as a tile of `room`, and every other tile unchanged.
pub open spec fn claimed_square(
    a: Seq<Seq<TileState>>,
    b: Seq<Seq<TileState>>,
    x: int,
    y: int,
    side: int,
    room: Seq<char>,
    owner: OwnerId,
) -> bool {
    &&& a.len() == b.len()
    &&& forall|cy: int| 0 <= cy < a.len() ==> #[trigger] b[cy].len() == a[cy].len()
    &&& forall|cx: int, cy: int|
        #![trigger b[cy][cx]]
        0 <= cy < a.len() && 0 <= cx < a[cy].len() ==> if in_square(
            TilePos { x: cx as i32, y: cy as i32 },
            x,
            y,
            side,
        ) {
            claimed_as(a[cy][cx], b[cy][cx], room, owner)
        } else {
            b[cy][cx] == a[cy][cx]
        }
}

/// The number of tiles a room must hold: its minimum, and at least one.
pub open spec fn needed_tiles(min_tiles: u32) -> int {
    if min_tiles >= 1 {
        min_tiles as int
    } else {
        1
    }
}

/// The side of the square for a room of at least `min_tiles` tiles (at least
/// one) and of at least `desired` tiles per side.
pub open spec fn room_side(min_tiles: u32, desired: usize, side: int) -> bool {
    exists|s: int|
        #[trigger] is_square_side(needed_tiles(min_tiles), s) && side == if desired >= s {
            desired as int
        } else {
            s
        }
}

/// The outcome of `place_room`: state `s0` becomes `s1`, with result `r`.
pub open spec fn room_placed(
    s0: GameState,
    s1: GameState,
    owner: OwnerId,
    room: Seq<char>,
    min_tiles: Option<u32>,
    desired: usize,
    r: bool,
) -> bool {
    &&& dungeon_wf(s1.dungeon)
    &&& same_but_grid(s0, s1)
    &&& match min_tiles {
            None => !r && s1.dungeon.grid == s0.dungeon.grid,
            Some(m) => exists|side: int|
                #![trigger any_site(s0.dungeon, owner, side)]
                room_side(m, desired, side) && (r == any_site(s0.dungeon, owner, side))
                    && (r ==> exists|x: int, y: int|
                    first_site(s0.dungeon, owner, side, x, y) && #[trigger] claimed_square(
                        cells(&s0.dungeon.grid),
                        cells(&s1.dungeon.grid),
                        x,
                        y,
                        side,
                        room,
                        owner,
                    )) && (!r ==> s1.dungeon.grid == s0.dungeon.grid)
        }
    &&& !r ==> s1 == s0
}

/// Build a room of type `room_id` for `owner` on the first square of its
/// claimed floor large enough for it. `min_tiles` is the room type's minimum
/// size, none when the room type is unknown; `desired_side` the keeper's
/// preferred side. Says whether a room was placed.
pub fn place_room(
    state: &mut GameState,
    owner: OwnerId,
    room_id: &str,
    min_tiles: Option<u32>,
    desired_side: usize,
) -> (r: bool)
    requires
        dungeon_wf(old(state).dungeon),
    ensures
        room_placed(*old(state), *final(state), owner, room_id@, min_tiles, desired_side, r),
{
    let m = match min_tiles {
        Some(m) => m,
        None => {
            return false;
        },
    };
    let needed: u32 = if m >= 1 {
        m
    } else {
        1
    };
    let s = square_side_for_tiles(needed as usize);
    let side = if desired_side >= s {
        desired_side
    } else {
        s
    };
    assert(room_side(m, desired_side, side as int)) by {
        assert(needed as int == needed_tiles(m));
        assert(is_square_side(needed_tiles(m), s as int));
    }
    let tiles = match find_room_site(state, owner, side) {
        Some(t) => t,
        None => {
            return false;
        },
    };
    let ghost orig = cells(&state.dungeon.grid);
    let ghost d0 = state.dungeon;
    let ghost s0 = *state;
    let ghost (sx, sy) = choose|x: int, y: int|
        first_site(d0, owner, side as int, x, y) && #[trigger] lists_square(
            tiles@,
            x,
            y,
            side as int,
        );
    let mut i: usize = 0;
    while i < tiles.len()
        invariant
            dungeon_wf(state.dungeon),
            d0 == s0.dungeon,
            dungeon_wf(d0),
            orig == cells(&d0.grid),
            same_but_grid(s0, *state),
            first_site(d0, owner, side as int, sx, sy),
            lists_square(tiles@, sx, sy, side as int),
            i <= tiles@.len(),
            cells(&state.dungeon.grid).len() == orig.len(),
            forall|cy: int|
                0 <= cy < orig.len() ==> #[trigger] cells(&state.dungeon.grid)[cy].len()
                    == orig[cy].len(),
            forall|cx: int, cy: int|
                #![trigger cells(&state.dungeon.grid)[cy][cx]]
                0 <= cy < orig.len() && 0 <= cx < orig[cy].len() ==> if tiles@.take(i as int).contains(
                    TilePos { x: cx as i32, y: cy as i32 },
                ) {
                    claimed_as(orig[cy][cx], cells(&state.dungeon.grid)[cy][cx], room_id@, owner)
                } else {
                    cells(&state.dungeon.grid)[cy][cx] == orig[cy][cx]
                },
        decreases tiles@.len() - i,
    {
        let pos = tiles[i];
        let ghost before = cells(&state.dungeon.grid);
        proof {
            assert(in_square(pos, sx, sy, side as int));
            assert(cell_ok_at(d0, owner, pos.x as int, pos.y as int));
        }
        state.dungeon.claim_tile(pos, room_id, owner);
        proof {
            let after = cells(&state.dungeon.grid);
            assert forall|cy: int| 0 <= cy < orig.len() implies #[trigger] after[cy].len() == orig[cy].len() by {
                assert(before[cy].len() == orig[cy].len());
            }
            assert forall|cx: int, cy: int|
                #![trigger after[cy][cx]]
                0 <= cy < orig.len() && 0 <= cx < orig[cy].len() implies if tiles@.take(i + 1).contains(
                    TilePos { x: cx as i32, y: cy as i32 },
                ) {
                    claimed_as(orig[cy][cx], after[cy][cx], room_id@, owner)
                } else {
                    after[cy][cx] == orig[cy][cx]
                } by {
                let p = TilePos { x: cx as i32, y: cy as i32 };
                assert(orig[cy].len() == orig[0].len());
                assert(p.x == cx && p.y == cy);
                assert(before[cy][cx] == after[cy][cx] || (cx == pos.x && cy == pos.y));
                if cx == pos.x && cy == pos.y {
                    assert(p == pos);
                    assert(tiles@.take(i + 1)[i as int] == pos);
                    assert(tiles@.take(i + 1).contains(p));
                    assert(orig[cy][cx].pos == p);
                } else {
                    if tiles@.take(i + 1).contains(p) {
                        let k = choose|k: int| 0 <= k < i + 1 && #[trigger] tiles@.take(i + 1)[k] == p;
                        if k == i {
                            assert(p == pos);
                        }
                        assert(tiles@.take(i + 1)[k] == tiles@[k]);
                        assert(tiles@.take(i as int)[k] == tiles@[k]);
                        assert(tiles@.take(i as int)[k] == p);
                        assert(tiles@.take(i as int).contains(p));
                    } else {
                        if tiles@.take(i as int).contains(p) {
                            let k = choose|k: int| 0 <= k < i && #[trigger] tiles@.take(i as int)[k] == p;
                            assert(tiles@.take(i as int)[k] == tiles@[k]);
                            assert(tiles@.take(i + 1)[k] == tiles@[k]);
                            assert(tiles@.take(i + 1)[k] == p);
                        }
                    }
                }
            }
        }
        i = i + 1;
    }
    proof {
        let after = cells(&state.dungeon.grid);
        assert(tiles@.take(tiles@.len() as int) =~= tiles@);
        assert forall|cx: int, cy: int|
            #![trigger after[cy][cx]]
            0 <= cy < orig.len() && 0 <= cx < orig[cy].len() implies if in_square(
                TilePos { x: cx as i32, y: cy as i32 },
                sx,
                sy,
                side as int,
            ) {
                claimed_as(orig[cy][cx], after[cy][cx], room_id@, owner)
            } else {
                after[cy][cx] == orig[cy][cx]
            } by {
            let p = TilePos { x: cx as i32, y: cy as i32 };
            if in_square(p, sx, sy, side as int) {
                assert(tiles@.contains(p));
            } else if tiles@.contains(p) {
                let k = choose|k: int| 0 <= k < tiles@.len() && #[trigger] tiles@[k] == p;
                assert(in_square(tiles@[k], sx, sy, side as int));
            }
        }
        assert(claimed_square(orig, after, sx, sy, side as int, room_id@, owner));
    }
    true
}

/// `i` is among the first `limit` creatures of `owner` in `es`.
pub open spec fn in_first_owned(es: Seq<Entity>, owner: OwnerId, limit: int, i: int) -> bool {
    owned_creature(es[i], owner) && count_owned_creatures(es.take(i), owner) < limit
}

/// At least one, else `n`.
pub open spec fn at_least_one(n: usize) -> int {
    if n >= 1 {
        n as int
    } else {
        1
    }
}

/// The outcome of `assign_defenders_to_threat` for keeper `k`: state `s0`
/// becomes `s1`, with result `r`.
pub open spec fn defenders_sent(s0: GameState, s1: GameState, k: RivalKeeperAiState, r: bool) -> bool {
    &&& same_but_entities(s0, s1)
    &&& s1.entities@.len() == s0.entities@.len()
    &&& match nearest_threat(s0, k.owner, s0.entities@) {
            Some(b) => {
                &&& r == (count_owned_creatures(s0.entities@, k.owner) > 0)
                &&& forall|j: int|
                    0 <= j < s0.entities@.len() ==> if in_first_owned(
                        s0.entities@,
                        k.owner,
                        at_least_one(k.raid_size),
                        j,
                    ) {
                        retasked(
                            s0.entities@[j],
                            #[trigger] s1.entities@[j],
                            Task::MoveTo(b.0),
                        )
                    } else {
                        s1.entities@[j] == s0.entities@[j]
                    }
            },
            None => !r && s1.entities == s0.entities
        }
    &&& !r ==> s1 == s0
}

/// Send the first creatures of the keeper (as many as its raid size, at least
/// one) to the threat nearest its tiles. Says whether any creature was sent.
pub fn assign_defenders_to_threat(state: &mut GameState, keeper: &RivalKeeperAiState) -> (r: bool)
    ensures
        defenders_sent(*old(state), *final(state), *keeper, r),
{
    let threat = match nearest_threat_position(state, keeper.owner) {
        Some(t) => t,
        None => {
            return false;
        },
    };
    let owner = keeper.owner;
    let limit: usize = if keeper.raid_size >= 1 {
        keeper.raid_size
    } else {
        1
    };
    let ghost s0 = *state;
    let ghost es0 = state.entities@;
    let mut sent: usize = 0;
    let mut i: usize = 0;
    while i < state.entities.len()
        invariant
            es0 == s0.entities@,
            same_but_entities(s0, *state),
            sent == 0 ==> *state == s0,
            state.entities@.len() == es0.len(),
            i <= es0.len(),
            limit == at_least_one(keeper.raid_size),
            owner == keeper.owner,
            sent == if count_owned_creatures(es0.take(i as int), owner) < limit {
                count_owned_creatures(es0.take(i as int), owner) as int
            } else {
                limit as int
            },
            forall|j: int|
                0 <= j < i ==> if in_first_owned(es0, owner, limit as int, j) {
                    retasked(es0[j], #[trigger] state.entities@[j], Task::MoveTo(threat))
                } else {
                    state.entities@[j] == es0[j]
                },
            forall|j: int| i <= j < es0.len() ==> #[trigger] state.entities@[j] == es0[j],
        decreases es0.len() - i,
    {
        assert(es0.take(i + 1).drop_last() =~= es0.take(i as int));
        assert(es0.take(i + 1).last() == es0[i as int]);
        if sent < limit && state.entities[i].owner == owner && state.entities[i].is_creature() {
            state.entities[i].retask(Task::MoveTo(threat));
            sent = sent + 1;
        }
        i = i + 1;
    }
    assert(es0.take(es0.len() as int) =~= es0);
    sent > 0
}

/// `e` is a creature of `owner` not yet marching on `heart`.
pub open spec fn raider(e: Entity, owner: OwnerId, heart: TilePos) -> bool {
    &&& e.owner == owner
    &&& match e.entity_type {
        EntityType::Creature(c) => c.current_task != Some(Task::MoveTo(heart)),
        _ => false,
    }
}

/// Number of creatures of `owner` in `es` not yet marching on `heart`.
pub open spec fn count_raiders(es: Seq<Entity>, owner: OwnerId, heart: TilePos) -> nat
    decreases es.len(),
{
    if es.len() == 0 {
        0
    } else {
        count_raiders(es.drop_last(), owner, heart) + if raider(es.last(), owner, heart) {
            1nat
        } else {
            0nat
        }
    }
}

/// Whether the creature is not yet marching on `heart`.
fn not_marching_on(e: &Entity, heart: TilePos) -> (r: bool)
    requires
        e.entity_type is Creature,
    ensures
        r == match e.entity_type {
            EntityType::Creature(c) => c.current_task != Some(Task::MoveTo(heart)),
            _ => false,
        },
{
    match &e.entity_type {
        EntityType::Creature(c) => match c.current_task {
            Some(Task::MoveTo(p)) => p != heart,
            _ => true,
        },
        _ => false,
    }
}

/// The outcome of `launch_heart_raid`: state `s0` becomes `s1`, with result
/// `r`.
pub open spec fn raid_launched(s0: GameState, s1: GameState, owner: OwnerId, raid_size: usize, r: bool) -> bool {
    &&& same_but_entities(s0, s1)
    &&& s1.entities@.len() == s0.entities@.len()
    &&& match first_heart_pos(state_tiles(s0)) {
            Some(heart) => {
                &&& r == (count_raiders(s0.entities@, owner, heart) > 0)
                &&& forall|j: int|
                    0 <= j < s0.entities@.len() ==> if raider(
                        s0.entities@[j],
                        owner,
                        heart,
                    ) && count_raiders(s0.entities@.take(j), owner, heart) < at_least_one(
                        raid_size,
                    ) {
                        retasked(
                            s0.entities@[j],
                            #[trigger] s1.entities@[j],
                            Task::MoveTo(heart),
                        )
                    } else {
                        s1.entities@[j] == s0.entities@[j]
                    }
            },
            None => !r && s1.entities == s0.entities
        }
    &&& !r ==> s1 == s0
}

/// Send the first creatures of `owner` that are not yet marching on the
/// player's dungeon heart (as many as `raid_size`, at least one) against it.
/// Says whether a raid was launched; none is without a heart.
pub fn launch_heart_raid(state: &mut GameState, owner: OwnerId, raid_size: usize) -> (r: bool)
    ensures
        raid_launched(*old(state), *final(state), owner, raid_size, r),
{
    let heart = match state.find_dungeon_heart_position() {
        Some(h) => h,
        None => {
            return false;
        },
    };
    let limit: usize = if raid_size >= 1 {
        raid_size
    } else {
        1
    };
    let ghost s0 = *state;
    let ghost es0 = state.entities@;
    let mut sent: usize = 0;
    let mut i: usize = 0;
    while i < state.entities.len()
        invariant
            es0 == s0.entities@,
            same_but_entities(s0, *state),
            sent == 0 ==> *state == s0,
            state.entities@.len() == es0.len(),
            i <= es0.len(),
            limit == at_least_one(raid_size),
            sent == if count_raiders(es0.take(i as int), owner, heart) < limit {
                count_raiders(es0.take(i as int), owner, heart) as int
            } else {
                limit as int
            },
            forall|j: int|
                0 <= j < i ==> if raider(es0[j], owner, heart) && count_raiders(
                    es0.take(j),
                    owner,
                    heart,
                ) < limit {
                    retasked(es0[j], #[trigger] state.entities@[j], Task::MoveTo(heart))
                } else {
                    state.entities@[j] == es0[j]
                },
            forall|j: int| i <= j < es0.len() ==> #[trigger] state.entities@[j] == es0[j],
        decreases es0.len() - i,
    {
        assert(es0.take(i + 1).drop_last() =~= es0.take(i as int));
        assert(es0.take(i + 1).last() == es0[i as int]);
        if sent < limit && state.entities[i].owner == owner && state.entities[i].is_creature()
            && not_marching_on(&state.entities[i], heart) {
            state.entities[i].retask(Task::MoveTo(heart));
            sent = sent + 1;
        }
        i = i + 1;
    }
    assert(es0.take(es0.len() as int) =~= es0);
    sent > 0
}

/// The tile at `p` can be dug into by a keeper: it is on the grid, of a
/// diggable type, neutral and unclaimed.
pub open spec fn open_for_digging(d: Dungeon, diggable: Seq<String>, p: TilePos) -> bool {
    &&& on_grid(d, p)
    &&& holds_str(diggable, tile_at(d, p).tile_type@)
    &&& tile_at(d, p).owner == OwnerId::Neutral
    &&& tile_at(d, p).ownership == Ownership::Unclaimed
}

/// The tile at `(x, y)` is walkable ground of `owner`.
pub open spec fn owned_walkable(d: Dungeon, owner: OwnerId, walkable: Seq<String>, x: int, y: int) -> bool {
    let t = tile_at(d, TilePos { x: x as i32, y: y as i32 });
    &&& 0 <= x < d.width
    &&& 0 <= y < d.height
    &&& t.owner == owner
    &&& holds_str(walkable, t.tile_type@)
}

/// `p` is an edge neighbour of `(x, y)`.
pub open spec fn next_to(p: TilePos, x: int, y: int) -> bool {
    cardinal_neighbors_spec(TilePos { x: x as i32, y: y as i32 }).contains(p)
}

/// `p` is a tile a keeper can expand into: open for digging and next to
/// walkable ground of the keeper.
pub open spec fn expansion_candidate(
    d: Dungeon,
    owner: OwnerId,
    walkable: Seq<String>,
    diggable: Seq<String>,
    p: TilePos,
) -> bool {
    &&& open_for_digging(d, diggable, p)
    &&& exists|x: int, y: int| owned_walkable(d, owner, walkable, x, y) && #[trigger] next_to(p, x, y)
}

/// The tiles a keeper can expand into, each once: the diggable, neutral,
/// unclaimed neighbours of its walkable ground. `walkable_types` and
/// `diggable_types` name the tile types that can be walked and dug.
pub fn expansion_candidates(
    state: &GameState,
    walkable_types: &Vec<String>,
    diggable_types: &Vec<String>,
    owner: OwnerId,
) -> (r: Vec<TilePos>)
    requires
        dungeon_wf(state.dungeon),
    ensures
        distinct_tiles(r@),
        forall|p: TilePos|
            #[trigger] r@.contains(p) <==> expansion_candidate(
                state.dungeon,
                owner,
                walkable_types@,
                diggable_types@,
                p,
            ),
{
    let d = &state.dungeon;
    let ghost walk = walkable_types@;
    let ghost dig = diggable_types@;
    let mut candidates: Vec<TilePos> = Vec::new();
    let mut y: usize = 0;
    while y < d.height
        invariant
            d == &state.dungeon,
            walk == walkable_types@,
            dig == diggable_types@,
            dungeon_wf(*d),
            y <= d.height,
            distinct_tiles(candidates@),
            forall|p: TilePos|
                #[trigger] candidates@.contains(p) <==> (open_for_digging(*d, dig, p) && exists|
                    x: int,
                    yy: int,
                | 0 <= yy < y && owned_walkable(*d, owner, walk, x, yy) && #[trigger] next_to(p, x, yy)),
        decreases d.height - y,
    {
        let mut x: usize = 0;
        while x < d.width
            invariant
                d == &state.dungeon,
                walk == walkable_types@,
                dig == diggable_types@,
                dungeon_wf(*d),
                y < d.height,
                x <= d.width,
                distinct_tiles(candidates@),
                forall|p: TilePos|
                    #[trigger] candidates@.contains(p) <==> (open_for_digging(*d, dig, p) && exists|
                        xx: int,
                        yy: int,
                    |
                        (0 <= yy < y || (yy == y && 0 <= xx < x)) && owned_walkable(*d, owner, walk, xx, yy)
                            && #[trigger] next_to(p, xx, yy)),
            decreases d.width - x,
        {
            assert(cells(&d.grid)[y as int].len() == cells(&d.grid)[0].len());
            let tile = &d.grid[y][x];
            let here = TilePos { x: x as i32, y: y as i32 };
            assert(tile_at(*d, here) == *tile);
            assert(tile.pos == here);
            let ghost before = candidates@;
            if tile.owner == owner && contains_str(walkable_types, tile.tile_type.as_str()) {
                assert(owned_walkable(*d, owner, walk, x as int, y as int));
                let neighbors = cardinal_neighbors(tile.pos);
                let mut k: usize = 0;
                while k < 4
                    invariant
                        d == &state.dungeon,
                        walk == walkable_types@,
                        dig == diggable_types@,
                        dungeon_wf(*d),
                        y < d.height,
                        x < d.width,
                        k <= 4,
                        neighbors@ == cardinal_neighbors_spec(here),
                        owned_walkable(*d, owner, walk, x as int, y as int),
                        distinct_tiles(candidates@),
                        forall|p: TilePos|
                            #[trigger] candidates@.contains(p) <==> ((open_for_digging(*d, dig, p) && exists|
                                xx: int,
                                yy: int,
                            |
                                (0 <= yy < y || (yy == y && 0 <= xx < x)) && owned_walkable(
                                    *d,
                                    owner,
                                    walk,
                                    xx,
                                    yy,
                                ) && #[trigger] next_to(p, xx, yy)) || (open_for_digging(*d, dig, p)
                                && exists|j: int| 0 <= j < k && neighbors@[j] == p)),
                    decreases 4 - k,
                {
                    let n = neighbors[k];
                    let open = match d.get_tile(n) {
                        Some(c) => contains_str(diggable_types, c.tile_type.as_str()) && c.owner
                            == OwnerId::Neutral && c.ownership == Ownership::Unclaimed,
                        None => false,
                    };
                    assert(open == open_for_digging(*d, dig, n));
                    if open {
                        insert_tile(&mut candidates, n);
                    }
                    proof {
                        assert forall|p: TilePos|
                            #[trigger] candidates@.contains(p) <==> ((open_for_digging(*d, dig, p) && exists|
                                xx: int,
                                yy: int,
                            |
                                (0 <= yy < y || (yy == y && 0 <= xx < x)) && owned_walkable(
                                    *d,
                                    owner,
                                    walk,
                                    xx,
                                    yy,
                                ) && #[trigger] next_to(p, xx, yy)) || (open_for_digging(*d, dig, p)
                                && exists|j: int| 0 <= j < k + 1 && neighbors@[j] == p)) by {
                            if exists|j: int| 0 <= j < k + 1 && neighbors@[j] == p {
                                let j = choose|j: int| 0 <= j < k + 1 && neighbors@[j] == p;
                                if j < k {
                                    assert(exists|j: int| 0 <= j < k && neighbors@[j] == p);
                                }
                            }
                            if p == n {
                                assert(neighbors@[k as int] == p);
                            }
                        }
                    }
                    k = k + 1;
                }
                proof {
                    assert forall|p: TilePos|
                        #[trigger] candidates@.contains(p) <==> (open_for_digging(*d, dig, p) && exists|
                            xx: int,
                            yy: int,
                        |
                            (0 <= yy < y || (yy == y && 0 <= xx < x + 1)) && owned_walkable(
                                *d,
                                owner,
                                walk,
                                xx,
                                yy,
                            ) && #[trigger] next_to(p, xx, yy)) by {
                        if exists|j: int| 0 <= j < 4 && neighbors@[j] == p {
                            let j = choose|j: int| 0 <= j < 4 && neighbors@[j] == p;
                            assert(cardinal_neighbors_spec(here)[j] == p);
                            assert(next_to(p, x as int, y as int));
                        }
                        if next_to(p, x as int, y as int) {
                            let j = choose|j: int| 0 <= j < 4 && cardinal_neighbors_spec(here)[j] == p;
                            assert(neighbors@[j] == p);
                        }
                    }
                }
            } else {
                proof {
                    assert(!owned_walkable(*d, owner, walk, x as int, y as int));
                    assert forall|p: TilePos|
                        #[trigger] candidates@.contains(p) <==> (open_for_digging(*d, dig, p) && exists|
                            xx: int,
                            yy: int,
                        |
                            (0 <= yy < y || (yy == y && 0 <= xx < x + 1)) && owned_walkable(
                                *d,
                                owner,
                                walk,
                                xx,
                                yy,
                            ) && #[trigger] next_to(p, xx, yy)) by {
                        if exists|xx: int, yy: int|
                            (0 <= yy < y || (yy == y && 0 <= xx < x + 1)) && owned_walkable(
                                *d,
                                owner,
                                walk,
                                xx,
                                yy,
                            ) && #[trigger] next_to(p, xx, yy) {
                            let (xx, yy) = choose|xx: int, yy: int|
                                (0 <= yy < y || (yy == y && 0 <= xx < x + 1)) && owned_walkable(
                                    *d,
                                    owner,
                                    walk,
                                    xx,
                                    yy,
                                ) && #[trigger] next_to(p, xx, yy);
                            assert(!(yy == y && xx == x));
                        }
                    }
                }
            }
            x = x + 1;
        }
        proof {
            assert forall|p: TilePos|
                #[trigger] candidates@.contains(p) <==> (open_for_digging(*d, dig, p) && exists|
                    xx: int,
                    yy: int,
                | 0 <= yy < y + 1 && owned_walkable(*d, owner, walk, xx, yy) && #[trigger] next_to(p, xx, yy)) by {
                if exists|xx: int, yy: int| 0 <= yy < y + 1 && owned_walkable(*d, owner, walk, xx, yy) && #[trigger] next_to(p, xx, yy) {
                    let (xx, yy) = choose|xx: int, yy: int| 0 <= yy < y + 1 && owned_walkable(*d, owner, walk, xx, yy) && #[trigger] next_to(p, xx, yy);
                    assert((0 <= yy < y || (yy == y && 0 <= xx < d.width)) && owned_walkable(*d, owner, walk, xx, yy));
                }
            }
        }
        y = y + 1;
    }
    proof {
        assert forall|p: TilePos|
            #[trigger] candidates@.contains(p) <==> expansion_candidate(*d, owner, walk, dig, p) by {
            if exists|xx: int, yy: int| owned_walkable(*d, owner, walk, xx, yy) && #[trigger] next_to(p, xx, yy) {
                let (xx, yy) = choose|xx: int, yy: int| owned_walkable(*d, owner, walk, xx, yy) && #[trigger] next_to(p, xx, yy);
                assert(0 <= yy < d.height);
            }
        }
    }
    candidates
}

/// `p` comes before `q` in digging order: nearer the heart, then higher up,
/// then further left.
pub open spec fn dig_before(p: TilePos, q: TilePos, heart: TilePos) -> bool {
    let mp = manhattan(p, heart);
    let mq = manhattan(q, heart);
    mp < mq || (mp == mq && (p.y < q.y || (p.y == q.y && p.x < q.x)))
}

/// How many positions of `cands` come before `p` in digging order.
pub open spec fn dig_rank(cands: Seq<TilePos>, p: TilePos, heart: TilePos) -> nat
    decreases cands.len(),
{
    if cands.len() == 0 {
        0
    } else {
        dig_rank(cands.drop_last(), p, heart) + if dig_before(cands.last(), p, heart) {
            1nat
        } else {
            0nat
        }
    }
}

/// `cands` lists every expansion candidate of the keeper once.
pub open spec fn lists_candidates(
    d: Dungeon,
    owner: OwnerId,
    walkable: Seq<String>,
    diggable: Seq<String>,
    cands: Seq<TilePos>,
) -> bool {
    &&& distinct_tiles(cands)
    &&& forall|p: TilePos| #[trigger] cands.contains(p) <==> expansion_candidate(d, owner, walkable, diggable, p)
}

/// `b` is `a` with the first `k` candidates in digging order claimed for
/// `owner` as claimed floor, and every other tile unchanged.
pub open spec fn dug_first(
    a: Seq<Seq<TileState>>,
    b: Seq<Seq<TileState>>,
    cands: Seq<TilePos>,
    heart: TilePos,
    k: int,
    owner: OwnerId,
) -> bool {
    &&& a.len() == b.len()
    &&& forall|y: int| 0 <= y < a.len() ==> #[trigger] b[y].len() == a[y].len()
    &&& forall|x: int, y: int|
        #![trigger b[y][x]]
        0 <= y < a.len() && 0 <= x < a[y].len() ==> if cands.contains(TilePos { x: x as i32, y: y as i32 })
            && dig_rank(cands, TilePos { x: x as i32, y: y as i32 }, heart) < k {
            claimed_as(a[y][x], b[y][x], "claimed_floor"@, owner)
        } else {
            b[y][x] == a[y][x]
        }
}

/// Whether `p` comes before `q` in digging order.
fn dig_before_exec(p: TilePos, q: TilePos, heart: TilePos) -> (r: bool)
    ensures
        r == dig_before(p, q, heart),
{
    let mp = p.manhattan_distance(&heart);
    let mq = q.manhattan_distance(&heart);
    mp < mq || (mp == mq && (p.y < q.y || (p.y == q.y && p.x < q.x)))
}

/// The outcome of `dig_expansion`: state `s0` becomes `s1`, with result `r`.
pub open spec fn expansion_dug(
    s0: GameState,
    s1: GameState,
    walkable: Seq<String>,
    diggable: Seq<String>,
    owner: OwnerId,
    dig_batch: usize,
    r: bool,
) -> bool {
    &&& dungeon_wf(s1.dungeon)
    &&& same_but_grid(s0, s1)
    &&& match first_heart_pos(state_tiles(s0)) {
            None => !r && s1.dungeon.grid == s0.dungeon.grid,
            Some(heart) => exists|cands: Seq<TilePos>|
                #[trigger] lists_candidates(
                    s0.dungeon,
                    owner,
                    walkable,
                    diggable,
                    cands,
                ) && r == (cands.len() > 0) && dug_first(
                    cells(&s0.dungeon.grid),
                    cells(&s1.dungeon.grid),
                    cands,
                    heart,
                    at_least_one(dig_batch),
                    owner,
                )
        }
    &&& !r ==> s1 == s0
}

/// Dig out the keeper's expansion: of the tiles it can expand into, the
/// first `dig_batch` (at least one) nearest the player's dungeon heart
/// become claimed floor of the keeper. Says whether anything was dug; nothing
/// is without a heart.
pub fn dig_expansion(
    state: &mut GameState,
    walkable_types: &Vec<String>,
    diggable_types: &Vec<String>,
    owner: OwnerId,
    dig_batch: usize,
) -> (r: bool)
    requires
        dungeon_wf(old(state).dungeon),
    ensures
        expansion_dug(*old(state), *final(state), walkable_types@, diggable_types@, owner, dig_batch, r),
{
    let candidates = expansion_candidates(state, walkable_types, diggable_types, owner);
    let heart = match state.find_dungeon_heart_position() {
        Some(h) => h,
        None => {
            return false;
        },
    };
    let limit: usize = if dig_batch >= 1 {
        dig_batch
    } else {
        1
    };
    let ghost s0 = *state;
    let ghost d0 = state.dungeon;
    let ghost orig = cells(&state.dungeon.grid);
    let ghost cands = candidates@;
    let mut i: usize = 0;
    while i < candidates.len()
        invariant
            s0 == *old(state),
            d0 == s0.dungeon,
            orig == cells(&d0.grid),
            dungeon_wf(d0),
            dungeon_wf(state.dungeon),
            same_but_grid(s0, *state),
            i == 0 ==> *state == s0,
            cands == candidates@,
            lists_candidates(d0, owner, walkable_types@, diggable_types@, cands),
            limit == at_least_one(dig_batch),
            i <= cands.len(),
            cells(&state.dungeon.grid).len() == orig.len(),
            forall|cy: int|
                0 <= cy < orig.len() ==> #[trigger] cells(&state.dungeon.grid)[cy].len()
                    == orig[cy].len(),
            forall|cx: int, cy: int|
                #![trigger cells(&state.dungeon.grid)[cy][cx]]
                0 <= cy < orig.len() && 0 <= cx < orig[cy].len() ==> if cands.take(i as int).contains(
                    TilePos { x: cx as i32, y: cy as i32 },
                ) && dig_rank(cands, TilePos { x: cx as i32, y: cy as i32 }, heart) < limit {
                    claimed_as(orig[cy][cx], cells(&state.dungeon.grid)[cy][cx], "claimed_floor"@, owner)
                } else {
                    cells(&state.dungeon.grid)[cy][cx] == orig[cy][cx]
                },
        decreases cands.len() - i,
    {
        let p = candidates[i];
        let mut rank: usize = 0;
        let mut j: usize = 0;
        while j < candidates.len()
            invariant
                cands == candidates@,
                i < cands.len(),
                p == cands[i as int],
                j <= cands.len(),
                rank == dig_rank(cands.take(j as int), p, heart),
                rank <= j,
            decreases cands.len() - j,
        {
            assert(cands.take(j + 1).drop_last() =~= cands.take(j as int));
            if dig_before_exec(candidates[j], p, heart) {
                rank = rank + 1;
            }
            j = j + 1;
        }
        assert(cands.take(cands.len() as int) =~= cands);
        let ghost before = cells(&state.dungeon.grid);
        assert(cands.contains(p));
        assert(on_grid(state.dungeon, p));
        if rank < limit {
            state.dungeon.claim_tile(p, "claimed_floor", owner);
        }
        proof {
            let after = cells(&state.dungeon.grid);
            assert forall|cy: int| 0 <= cy < orig.len() implies #[trigger] after[cy].len() == orig[cy].len() by {
                assert(before[cy].len() == orig[cy].len());
            }
            assert forall|cx: int, cy: int|
                #![trigger after[cy][cx]]
                0 <= cy < orig.len() && 0 <= cx < orig[cy].len() implies if cands.take(i + 1).contains(
                    TilePos { x: cx as i32, y: cy as i32 },
                ) && dig_rank(cands, TilePos { x: cx as i32, y: cy as i32 }, heart) < limit {
                    claimed_as(orig[cy][cx], after[cy][cx], "claimed_floor"@, owner)
                } else {
                    after[cy][cx] == orig[cy][cx]
                } by {
                let q = TilePos { x: cx as i32, y: cy as i32 };
                assert(orig[cy].len() == orig[0].len());
                assert(q.x == cx && q.y == cy);
                assert(before[cy].len() == orig[cy].len());
                if cx == p.x && cy == p.y {
                    assert(q == p);
                    assert(cands.take(i + 1)[i as int] == p);
                    assert(cands.take(i + 1).contains(q));
                    assert(!cands.take(i as int).contains(q)) by {
                        if cands.take(i as int).contains(q) {
                            let k = choose|k: int| 0 <= k < i && #[trigger] cands.take(i as int)[k] == q;
                            assert(cands[k] == cands[i as int]);
                        }
                    }
                    assert(before[cy][cx] == orig[cy][cx]);
                    assert(orig[cy][cx].pos == q);
                } else {
                    if rank < limit {
                        assert(after[cy][cx] == before[cy][cx]);
                    }
                    if cands.take(i + 1).contains(q) {
                        let k = choose|k: int| 0 <= k < i + 1 && #[trigger] cands.take(i + 1)[k] == q;
                        if k == i {
                            assert(q == p);
                        }
                        assert(cands.take(i + 1)[k] == cands[k]);
                        assert(cands.take(i as int)[k] == cands[k]);
                        assert(cands.take(i as int).contains(q));
                    } else {
                        if cands.take(i as int).contains(q) {
                            let k = choose|k: int| 0 <= k < i && #[trigger] cands.take(i as int)[k] == q;
                            assert(cands.take(i as int)[k] == cands[k]);
                            assert(cands.take(i + 1)[k] == cands[k]);
                            assert(cands.take(i + 1)[k] == q);
                        }
                    }
                }
            }
        }
        i = i + 1;
    }
    proof {
        assert(cands.take(cands.len() as int) =~= cands);
        assert(dug_first(orig, cells(&state.dungeon.grid), cands, heart, limit as int, owner));
        assert(lists_candidates(d0, owner, walkable_types@, diggable_types@, cands));
    }
    candidates.len() > 0
}

/// Every tile of a grid occurs among its flattened tiles.
pub proof fn lemma_flat_tiles_has_cell(g: Seq<Seq<TileState>>, y: int, x: int)
    requires
        0 <= y < g.len(),
        0 <= x < g[y].len(),
    ensures
        exists|k: int| 0 <= k < flat_tiles(g).len() && flat_tiles(g)[k] == g[y][x],
    decreases g.len(),
{
    let rest = flat_tiles(g.drop_last());
    if y == g.len() - 1 {
        let k = rest.len() + x;
        assert(flat_tiles(g)[k] == g[y][x]);
    } else {
        lemma_flat_tiles_has_cell(g.drop_last(), y, x);
        let k = choose|k: int| 0 <= k < rest.len() && rest[k] == g.drop_last()[y][x];
        assert(flat_tiles(g)[k] == rest[k]);
    }
}

/// A room tile anywhere among the tiles makes the owner hold the room.
proof fn lemma_has_room_tile_at(ts: Seq<TileState>, k: int, owner: OwnerId, room: Seq<char>)
    requires
        0 <= k < ts.len(),
        owned_room_tile(ts[k], owner, room),
    ensures
        has_room_tile(ts, owner, room),
    decreases ts.len(),
{
    if k < ts.len() - 1 {
        lemma_has_room_tile_at(ts.drop_last(), k, owner, room);
    }
}

/// A room that a rival keeper placed is then held by it: once `place_room`
/// has claimed a site for the room, the keeper owns a room of that type (so
/// it is no longer a missing desired room).
pub proof fn placed_room_is_held(
    s0: GameState,
    s1: GameState,
    owner: OwnerId,
    room: Seq<char>,
    side: int,
    x: int,
    y: int,
)
    requires
        ownership_of(owner) == Ownership::Enemy,
        dungeon_wf(s0.dungeon),
        side >= 1,
        first_site(s0.dungeon, owner, side, x, y),
        claimed_square(cells(&s0.dungeon.grid), cells(&s1.dungeon.grid), x, y, side, room, owner),
    ensures
        owns_room(s1, owner, room),
{
    let a = cells(&s0.dungeon.grid);
    let b = cells(&s1.dungeon.grid);
    assert(cell_ok_at(s0.dungeon, owner, x, y));
    assert(a[y].len() == a[0].len());
    assert(in_square(TilePos { x: x as i32, y: y as i32 }, x, y, side));
    assert(claimed_as(a[y][x], b[y][x], room, owner));
    assert(b[y].len() == a[y].len());
    lemma_flat_tiles_has_cell(b, y, x);
    let k = choose|k: int| 0 <= k < flat_tiles(b).len() && flat_tiles(b)[k] == b[y][x];
    lemma_has_room_tile_at(flat_tiles(b), k, owner, room);
}

/// What a rival keeper did in one decision.
#[derive(Debug)]
pub enum KeeperAction {
    /// Sent creatures against a threat near its tiles.
    Defend,
    /// Placed a room it wanted.
    BuildRoom,
    /// Dug toward room for a wanted room that did not fit yet.
    DigTowardRoom,
    /// Wants this creature spawned at this tile (the caller spawns it).
    Reinforce(String, TilePos),
    /// Dug its expansion while waiting to attack.
    Dig,
    /// Sent a raid against the player's dungeon heart (the caller lengthens
    /// the time to the next one).
    Raid,
    /// Did nothing.
    Idle,
}

/// The minimum size listed for a room type (the first entry for it).
pub open spec fn room_min(mins: Seq<(String, u32)>, room: Seq<char>) -> Option<u32>
    decreases mins.len(),
{
    if mins.len() == 0 {
        None
    } else if mins[0].0@ == room {
        Some(mins[0].1)
    } else {
        room_min(mins.drop_first(), room)
    }
}

/// The first preferred creature that the game knows.
pub open spec fn first_known(prefs: Seq<String>, known: Seq<String>) -> Option<Seq<char>>
    decreases prefs.len(),
{
    if prefs.len() == 0 {
        None
    } else if holds_str(known, prefs[0]@) {
        Some(prefs[0]@)
    } else {
        first_known(prefs.drop_first(), known)
    }
}

/// The keeper can place a room of the given minimum size and its preferred
/// side.
pub open spec fn can_place(d: Dungeon, owner: OwnerId, min_tiles: Option<u32>, desired: usize) -> bool {
    match min_tiles {
        Some(m) => exists|side: int| room_side(m, desired, side) && #[trigger] any_site(d, owner, side),
        None => false,
    }
}

/// The keeper has somewhere to dig toward the player's heart.
pub open spec fn can_expand(s: GameState, walkable: Seq<String>, diggable: Seq<String>, owner: OwnerId) -> bool {
    &&& first_heart_pos(state_tiles(s)) is Some
    &&& exists|p: TilePos| #[trigger] expansion_candidate(s.dungeon, owner, walkable, diggable, p)
}

/// A square side is determined by the tile count it must hold.
proof fn lemma_square_side_unique(n: int, s1: int, s2: int)
    requires
        is_square_side(n, s1),
        is_square_side(n, s2),
    ensures
        s1 == s2,
{
    if s1 < s2 {
        assert((s2 - 1) * (s2 - 1) >= s1 * s1) by (nonlinear_arith)
            requires
                0 <= s1 <= s2 - 1,
        ;
    } else if s2 < s1 {
        assert((s1 - 1) * (s1 - 1) >= s2 * s2) by (nonlinear_arith)
            requires
                0 <= s2 <= s1 - 1,
        ;
    }
}

/// `place_room` fails exactly when the keeper cannot place the room.
proof fn lemma_place_failure(
    s0: GameState,
    s1: GameState,
    owner: OwnerId,
    room: Seq<char>,
    min_tiles: Option<u32>,
    desired: usize,
)
    requires
        room_placed(s0, s1, owner, room, min_tiles, desired, false),
    ensures
        !can_place(s0.dungeon, owner, min_tiles, desired),
{
    if let Some(m) = min_tiles {
        let side0 = choose|side: int|
            #![trigger any_site(s0.dungeon, owner, side)]
            room_side(m, desired, side) && (false == any_site(s0.dungeon, owner, side)) && (false
                ==> exists|x: int, y: int|
                first_site(s0.dungeon, owner, side, x, y) && #[trigger] claimed_square(
                    cells(&s0.dungeon.grid),
                    cells(&s1.dungeon.grid),
                    x,
                    y,
                    side,
                    room,
                    owner,
                )) && (!false ==> s1.dungeon.grid == s0.dungeon.grid);
        if exists|side: int| room_side(m, desired, side) && #[trigger] any_site(s0.dungeon, owner, side) {
            let side1 = choose|side: int| room_side(m, desired, side) && #[trigger] any_site(s0.dungeon, owner, side);
            let sa = choose|sa: int|
                #[trigger] is_square_side(needed_tiles(m), sa) && side0 == if desired >= sa {
                    desired as int
                } else {
                    sa
                };
            let sb = choose|sb: int|
                #[trigger] is_square_side(needed_tiles(m), sb) && side1 == if desired >= sb {
                    desired as int
                } else {
                    sb
                };
            lemma_square_side_unique(needed_tiles(m), sa, sb);
        }
    }
}

/// `dig_expansion` digs exactly when the keeper can expand.
proof fn lemma_dig_result(
    s0: GameState,
    s1: GameState,
    walkable: Seq<String>,
    diggable: Seq<String>,
    owner: OwnerId,
    dig_batch: usize,
    r: bool,
)
    requires
        expansion_dug(s0, s1, walkable, diggable, owner, dig_batch, r),
    ensures
        r == can_expand(s0, walkable, diggable, owner),
{
    if let Some(heart) = first_heart_pos(state_tiles(s0)) {
        let cands = choose|cands: Seq<TilePos>|
            #[trigger] lists_candidates(s0.dungeon, owner, walkable, diggable, cands) && r == (cands.len()
                > 0) && dug_first(
                cells(&s0.dungeon.grid),
                cells(&s1.dungeon.grid),
                cands,
                heart,
                at_least_one(dig_batch),
                owner,
            );
        if exists|p: TilePos| #[trigger] expansion_candidate(s0.dungeon, owner, walkable, diggable, p) {
            let p = choose|p: TilePos| #[trigger] expansion_candidate(s0.dungeon, owner, walkable, diggable, p);
            assert(cands.contains(p));
        }
        if cands.len() > 0 {
            assert(cands.contains(cands[0]));
        }
    }
}

/// The minimum size listed for a room type.
fn lookup_room_min(mins: &Vec<(String, u32)>, room: &str) -> (r: Option<u32>)
    ensures
        r == room_min(mins@, room@),
{
    let mut i: usize = 0;
    assert(mins@.skip(0) =~= mins@);
    while i < mins.len()
        invariant
            i <= mins@.len(),
            room_min(mins@, room@) == room_min(mins@.skip(i as int), room@),
        decreases mins@.len() - i,
    {
        assert(mins@.skip(i as int)[0] == mins@[i as int]);
        assert(mins@.skip(i as int).drop_first() =~= mins@.skip(i + 1));
        if str_eq(mins[i].0.as_str(), room) {
            return Some(mins[i].1);
        }
        i = i + 1;
    }
    None
}

/// The first preferred creature that the game knows.
fn first_known_creature(prefs: &Vec<String>, known: &Vec<String>) -> (r: Option<String>)
    ensures
        match r {
            Some(c) => first_known(prefs@, known@) == Some(c@),
            None => first_known(prefs@, known@) is None,
        },
{
    let mut i: usize = 0;
    assert(prefs@.skip(0) =~= prefs@);
    while i < prefs.len()
        invariant
            i <= prefs@.len(),
            first_known(prefs@, known@) == first_known(prefs@.skip(i as int), known@),
        decreases prefs@.len() - i,
    {
        assert(prefs@.skip(i as int)[0] == prefs@[i as int]);
        assert(prefs@.skip(i as int).drop_first() =~= prefs@.skip(i + 1));
        if contains_str(known, prefs[i].as_str()) {
            return Some(prefs[i].clone());
        }
        i = i + 1;
    }
    None
}

/// The decision of rival keeper `keeper_index` takes `s0` to `s1` with the
/// action `r` (see `execute_keeper_decision`).
pub open spec fn keeper_decided(
    s0_arg: GameState,
    s1_arg: GameState,
    keeper_index: int,
    walkable_types: Seq<String>,
    diggable_types: Seq<String>,
    known_monsters: Seq<String>,
    room_min_tiles: Seq<(String, u32)>,
    r: KeeperAction,
) -> bool {
            let s0 = s0_arg;
            let s1 = s1_arg;
            let k = s0.rival_keepers@[keeper_index];
            let owned = count_owned_creatures(s0.entities@, k.owner);
            let threat = nearest_threat(s0, k.owner, s0.entities@) is Some && owned > 0;
            let missing = first_missing_room(s0, k.owner, k.desired_rooms@);
            let min_tiles = room_min(room_min_tiles, missing->0);
            let placeable = missing is Some && can_place(s0.dungeon, k.owner, min_tiles, k.room_size);
            let expandable = can_expand(s0, walkable_types, diggable_types, k.owner);
            let passed = !threat && (missing is None || (!placeable && !expandable));
            &&& threat ==> r is Defend && defenders_sent(s0, s1, k, true)
            &&& !threat && placeable ==> r is BuildRoom && room_placed(
                s0,
                s1,
                k.owner,
                missing->0,
                min_tiles,
                k.room_size,
                true,
            )
            &&& !threat && missing is Some && !placeable && expandable ==> r is DigTowardRoom
                && expansion_dug(s0, s1, walkable_types, diggable_types, k.owner, k.dig_batch, true)
            &&& passed && owned < k.min_garrison ==> s1 == s0 && match (
                first_known(k.preferred_creatures@, known_monsters),
                first_owned_pos(state_tiles(s0), k.owner),
            ) {
                (Some(c), Some(p)) => r matches KeeperAction::Reinforce(c2, p2) && c2@ == c && p2 == p,
                _ => r is Idle,
            }
            &&& passed && owned >= k.min_garrison && k.next_attack_time_ms > 0 ==> r is Dig
                && expansion_dug(s0, s1, walkable_types, diggable_types, k.owner, k.dig_batch, expandable)
            &&& passed && owned >= k.min_garrison && k.next_attack_time_ms <= 0 ==> (r is Raid || r is Idle)
                && raid_launched(s0, s1, k.owner, k.raid_size, r is Raid)
        }

/// One decision of rival keeper `keeper_index`, in order of urgency: defend
/// its tiles against a nearby threat; build (or dig room for) the first
/// desired room it lacks; ask for a reinforcement while below its garrison
/// size; dig while its attack timer runs; else raid the player's heart.
/// `walkable_types` and `diggable_types` name the tile types that can be
/// walked and dug, `known_monsters` the creatures the game knows, and
/// `room_min_tiles` each room type's minimum size.
pub fn execute_keeper_decision(
    state: &mut GameState,
    keeper_index: usize,
    walkable_types: &Vec<String>,
    diggable_types: &Vec<String>,
    known_monsters: &Vec<String>,
    room_min_tiles: &Vec<(String, u32)>,
) -> (r: KeeperAction)
    requires
        dungeon_wf(old(state).dungeon),
        keeper_index < old(state).rival_keepers@.len(),
    ensures
        keeper_decided(
            *old(state),
            *final(state),
            keeper_index as int,
            walkable_types@,
            diggable_types@,
            known_monsters@,
            room_min_tiles@,
            r,
        ),
        final(state).rival_keepers == old(state).rival_keepers,
        dungeon_wf(final(state).dungeon),
{
    let ghost s0 = *state;
    let owner = state.rival_keepers[keeper_index].owner;
    let raid_size = state.rival_keepers[keeper_index].raid_size;
    let dig_batch = state.rival_keepers[keeper_index].dig_batch;
    let room_size = state.rival_keepers[keeper_index].room_size;
    let min_garrison = state.rival_keepers[keeper_index].min_garrison;
    let next_attack = state.rival_keepers[keeper_index].next_attack_time_ms;
    let probe = RivalKeeperAiState {
        owner,
        ai_profile: String::new(),
        desired_rooms: Vec::new(),
        preferred_creatures: Vec::new(),
        min_garrison,
        raid_size,
        dig_batch,
        room_size,
        next_decision_time_ms: 0,
        next_attack_time_ms: next_attack,
        attack_cooldown_ms: 0,
        attack_cooldown_growth_permille: 0,
        first_attack_delay_ms: 0,
    };
    let owned = count_creatures_of(state, owner);
    if assign_defenders_to_threat(state, &probe) {
        return KeeperAction::Defend;
    }
    let missing = missing_desired_room(state, owner, &state.rival_keepers[keeper_index].desired_rooms);
    if let Some(room) = missing {
        let min_tiles = lookup_room_min(room_min_tiles, room.as_str());
        if place_room(state, owner, room.as_str(), min_tiles, room_size) {
            return KeeperAction::BuildRoom;
        }
        proof {
            lemma_place_failure(s0, *state, owner, room@, min_tiles, room_size);
        }
        let ghost s_before_dig = *state;
        let dug = dig_expansion(state, walkable_types, diggable_types, owner, dig_batch);
        proof {
            lemma_dig_result(s_before_dig, *state, walkable_types@, diggable_types@, owner, dig_batch, dug);
        }
        if dug {
            return KeeperAction::DigTowardRoom;
        }
    }
    if owned < min_garrison {
        let creature = first_known_creature(&state.rival_keepers[keeper_index].preferred_creatures, known_monsters);
        let spawn = find_owned_spawn_tile(state, owner);
        return match (creature, spawn) {
            (Some(c), Some(p)) => KeeperAction::Reinforce(c, p),
            _ => KeeperAction::Idle,
        };
    }
    if next_attack > 0 {
        let ghost s_before_dig = *state;
        let dug = dig_expansion(state, walkable_types, diggable_types, owner, dig_batch);
        proof {
            lemma_dig_result(s_before_dig, *state, walkable_types@, diggable_types@, owner, dig_batch, dug);
        }
        return KeeperAction::Dig;
    }
    if launch_heart_raid(state, owner, raid_size) {
        KeeperAction::Raid
    } else {
        KeeperAction::Idle
    }
}

/// How long a rival keeper waits between two decisions, in milliseconds.
pub const DECISION_INTERVAL_MS: i64 = 10_000;

/// The longest gap between two raids of a rival keeper, in milliseconds.
pub const MAX_ATTACK_COOLDOWN_MS: i64 = 600_000;

/// `a` and `b` differ at most in their rival keepers.
pub open spec fn same_but_keepers(a: GameState, b: GameState) -> bool {
    &&& b.dungeon == a.dungeon
    &&& b.entities == a.entities
    &&& b.rooms == a.rooms
    &&& b.player == a.player
    &&& b.dungeon_heart_health == a.dungeon_heart_health
    &&& b.paused == a.paused
    &&& b.game_over == a.game_over
    &&& b.victory == a.victory
    &&& b.cheat_fog_enabled == a.cheat_fog_enabled
    &&& b.cheat_immortal_heart == a.cheat_immortal_heart
    &&& b.notifications == a.notifications
    &&& b.time_elapsed_ms == a.time_elapsed_ms
    &&& b.active_scenario_id == a.active_scenario_id
    &&& b.scenario_runtime == a.scenario_runtime
    &&& b.unlocks == a.unlocks
    &&& b.campaign_progress == a.campaign_progress
    &&& b.hero_base == a.hero_base
}

/// Both timers of every keeper can be counted down by `dt` in an `i64`.
pub open spec fn keeper_timers_fit(ks: Seq<RivalKeeperAiState>, dt: int) -> bool {
    forall|i: int|
        0 <= i < ks.len() ==> {
            &&& #[trigger] ks[i].next_decision_time_ms - dt >= i64::MIN
            &&& ks[i].next_attack_time_ms - dt >= i64::MIN
        }
}

/// Keeper `k` after `dt` milliseconds: its decision timer runs down and starts
/// over at `DECISION_INTERVAL_MS` once it reaches zero; its attack timer runs
/// down to zero and stays there.
pub open spec fn ticked(k: RivalKeeperAiState, dt: int) -> RivalKeeperAiState {
    let d = k.next_decision_time_ms - dt;
    let a = k.next_attack_time_ms - dt;
    RivalKeeperAiState {
        next_decision_time_ms: if d <= 0 { DECISION_INTERVAL_MS } else { d as i64 },
        next_attack_time_ms: if a < 0 { 0 } else { a as i64 },
        ..k
    }
}

/// The indices of the keepers among `ks` whose decision timer runs out within
/// `dt` milliseconds, in order.
pub open spec fn due_keepers(ks: Seq<RivalKeeperAiState>, dt: int) -> Seq<int>
    decreases ks.len(),
{
    if ks.len() == 0 {
        Seq::empty()
    } else {
        let rest = due_keepers(ks.drop_last(), dt);
        if ks.last().next_decision_time_ms - dt <= 0 {
            rest.push(ks.len() - 1)
        } else {
            rest
        }
    }
}

/// The cooldown that follows `cooldown` after a raid: multiplied by the
/// growth (in thousandths, never below one), truncated toward zero, and at
/// most `MAX_ATTACK_COOLDOWN_MS` (and at least the smallest `i64`).
pub open spec fn grown_cooldown(cooldown: int, growth_permille: int) -> int {
    let g = if growth_permille < 1000 { 1000 } else { growth_permille };
    let p = cooldown * g;
    let q = if p >= 0 { p / 1000 } else { -((-p) / 1000) };
    if q > MAX_ATTACK_COOLDOWN_MS {
        MAX_ATTACK_COOLDOWN_MS as int
    } else if q < i64::MIN {
        i64::MIN as int
    } else {
        q
    }
}

/// Keeper `k` after it raided: its cooldown grows and its attack timer starts
/// over at the new cooldown.
pub open spec fn after_raid(k: RivalKeeperAiState) -> RivalKeeperAiState {
    let c = grown_cooldown(k.attack_cooldown_ms as int, k.attack_cooldown_growth_permille as int) as i64;
    RivalKeeperAiState { attack_cooldown_ms: c, next_attack_time_ms: c, ..k }
}

/// One decision of keeper `idx` takes `a` to `b` with action `act`; after a
/// raid the keeper's cooldown grows.
pub open spec fn keeper_step(
    a: GameState,
    b: GameState,
    idx: int,
    walkable_types: Seq<String>,
    diggable_types: Seq<String>,
    known_monsters: Seq<String>,
    room_min_tiles: Seq<(String, u32)>,
    act: KeeperAction,
) -> bool {
    let mid = GameState { rival_keepers: a.rival_keepers, ..b };
    &&& keeper_decided(a, mid, idx, walkable_types, diggable_types, known_monsters, room_min_tiles, act)
    &&& b.rival_keepers@ == if act is Raid {
        a.rival_keepers@.update(idx, after_raid(a.rival_keepers@[idx]))
    } else {
        a.rival_keepers@
    }
}

/// `tr` lists the states of one update of the rival keepers from `s0` to
/// `s1`: the timers of all keepers tick by `dt`, then each due keeper, in
/// order, makes one decision; `acts` pairs each due keeper with its action.
pub open spec fn keeper_trace(
    tr: Seq<GameState>,
    s0: GameState,
    s1: GameState,
    dt: int,
    walkable_types: Seq<String>,
    diggable_types: Seq<String>,
    known_monsters: Seq<String>,
    room_min_tiles: Seq<(String, u32)>,
    acts: Seq<(usize, KeeperAction)>,
) -> bool {
    let due = due_keepers(s0.rival_keepers@, dt);
    &&& tr.len() == due.len() + 1
    &&& acts.len() == due.len()
    &&& same_but_keepers(s0, tr[0])
    &&& tr[0].rival_keepers@ == s0.rival_keepers@.map_values(|k: RivalKeeperAiState| ticked(k, dt))
    &&& tr.last() == s1
    &&& forall|j: int|
        0 <= j < due.len() ==> #[trigger] trace_step(
            tr,
            due,
            acts,
            j,
            walkable_types,
            diggable_types,
            known_monsters,
            room_min_tiles,
        )
}

/// Step `j` of the trace `tr`: the keeper `due[j]` takes `tr[j]` to
/// `tr[j + 1]` with the action that `acts[j]` pairs it with.
pub open spec fn trace_step(
    tr: Seq<GameState>,
    due: Seq<int>,
    acts: Seq<(usize, KeeperAction)>,
    j: int,
    walkable_types: Seq<String>,
    diggable_types: Seq<String>,
    known_monsters: Seq<String>,
    room_min_tiles: Seq<(String, u32)>,
) -> bool {
    &&& acts[j].0 == due[j]
    &&& keeper_step(
        tr[j],
        tr[j + 1],
        due[j],
        walkable_types,
        diggable_types,
        known_monsters,
        room_min_tiles,
        acts[j].1,
    )
}

proof fn lemma_due_keepers_bounded(ks: Seq<RivalKeeperAiState>, dt: int)
    ensures
        forall|j: int| 0 <= j < due_keepers(ks, dt).len() ==> 0 <= #[trigger] due_keepers(ks, dt)[j] < ks.len(),
    decreases ks.len(),
{
    if ks.len() > 0 {
        lemma_due_keepers_bounded(ks.drop_last(), dt);
        let rest = due_keepers(ks.drop_last(), dt);
        assert forall|j: int| 0 <= j < due_keepers(ks, dt).len() implies 0 <= #[trigger] due_keepers(
            ks,
            dt,
        )[j] < ks.len() by {
            if j < rest.len() {
                assert(0 <= rest[j] < ks.len() - 1);
            }
        }
    }
}

/// Let `dt_ms` milliseconds pass for the rival keepers: every keeper's timers
/// run down, and each keeper whose decision timer ran out makes one decision
/// (`execute_keeper_decision`), in order; after a raid its attack cooldown
/// grows. Returns each deciding keeper's index with its action; the caller
/// spawns the creatures that `Reinforce` asks for.
pub fn update_rival_keeper_ai(
    state: &mut GameState,
    dt_ms: i64,
    walkable_types: &Vec<String>,
    diggable_types: &Vec<String>,
    known_monsters: &Vec<String>,
    room_min_tiles: &Vec<(String, u32)>,
) -> (acts: Vec<(usize, KeeperAction)>)
    requires
        dungeon_wf(old(state).dungeon),
        dt_ms >= 0,
        keeper_timers_fit(old(state).rival_keepers@, dt_ms as int),
    ensures
        exists|tr: Seq<GameState>|
            #[trigger] keeper_trace(
                tr,
                *old(state),
                *final(state),
                dt_ms as int,
                walkable_types@,
                diggable_types@,
                known_monsters@,
                room_min_tiles@,
                acts@,
            ),
{
    let ghost s0 = *state;
    let ghost ks0 = state.rival_keepers@;
    let mut due: Vec<usize> = Vec::new();
    let mut i: usize = 0;
    while i < state.rival_keepers.len()
        invariant
            ks0 == s0.rival_keepers@,
            keeper_timers_fit(ks0, dt_ms as int),
            dt_ms >= 0,
            same_but_keepers(s0, *state),
            state.rival_keepers@.len() == ks0.len(),
            i <= ks0.len(),
            forall|j: int| 0 <= j < i ==> #[trigger] state.rival_keepers@[j] == ticked(ks0[j], dt_ms as int),
            forall|j: int| i <= j < ks0.len() ==> #[trigger] state.rival_keepers@[j] == ks0[j],
            due@.map_values(|x: usize| x as int) == due_keepers(ks0.take(i as int), dt_ms as int),
        decreases ks0.len() - i,
    {
        assert(ks0.take(i + 1).drop_last() =~= ks0.take(i as int));
        let d = state.rival_keepers[i].next_decision_time_ms - dt_ms;
        let a = state.rival_keepers[i].next_attack_time_ms - dt_ms;
        if d <= 0 {
            state.rival_keepers[i].next_decision_time_ms = DECISION_INTERVAL_MS;
            let ghost before = due@.map_values(|x: usize| x as int);
            due.push(i);
            assert(due@.map_values(|x: usize| x as int) =~= before.push(i as int));
        } else {
            state.rival_keepers[i].next_decision_time_ms = d;
        }
        state.rival_keepers[i].next_attack_time_ms = if a < 0 { 0 } else { a };
        i = i + 1;
    }
    assert(ks0.take(ks0.len() as int) =~= ks0);
    assert(state.rival_keepers@ =~= ks0.map_values(|k: RivalKeeperAiState| ticked(k, dt_ms as int)));
    let ghost dues = due_keepers(ks0, dt_ms as int);
    proof {
        lemma_due_keepers_bounded(ks0, dt_ms as int);
    }
    let ghost mut tr: Seq<GameState> = seq![*state];
    let mut acts: Vec<(usize, KeeperAction)> = Vec::new();
    let mut j: usize = 0;
    while j < due.len()
        invariant
            dues == due_keepers(ks0, dt_ms as int),
            due@.map_values(|x: usize| x as int) == dues,
            forall|t: int| 0 <= t < dues.len() ==> 0 <= #[trigger] dues[t] < ks0.len(),
            state.rival_keepers@.len() == ks0.len(),
            dungeon_wf(state.dungeon),
            j <= due@.len(),
            tr.len() == j + 1,
            acts@.len() == j,
            same_but_keepers(s0, tr[0]),
            tr[0].rival_keepers@ == ks0.map_values(|k: RivalKeeperAiState| ticked(k, dt_ms as int)),
            tr.last() == *state,
            forall|t: int|
                0 <= t < j ==> #[trigger] trace_step(
                    tr,
                    dues,
                    acts@,
                    t,
                    walkable_types@,
                    diggable_types@,
                    known_monsters@,
                    room_min_tiles@,
                ),
        decreases due@.len() - j,
    {
        let idx = due[j];
        assert(due@.map_values(|x: usize| x as int)[j as int] == idx as int);
        let ghost a = *state;
        let act = execute_keeper_decision(
            state,
            idx,
            walkable_types,
            diggable_types,
            known_monsters,
            room_min_tiles,
        );
        let ghost mid = *state;
        let raided = match act {
            KeeperAction::Raid => true,
            _ => false,
        };
        if raided {
            let cd = state.rival_keepers[idx].attack_cooldown_ms;
            let g = state.rival_keepers[idx].attack_cooldown_growth_permille;
            let next = grow_cooldown(cd, g);
            state.rival_keepers[idx].attack_cooldown_ms = next;
            state.rival_keepers[idx].next_attack_time_ms = next;
            assert(state.rival_keepers@ =~= a.rival_keepers@.update(idx as int, after_raid(a.rival_keepers@[idx as int])));
        }
        assert(mid == GameState { rival_keepers: a.rival_keepers, ..*state });
        assert(keeper_step(
            a,
            *state,
            idx as int,
            walkable_types@,
            diggable_types@,
            known_monsters@,
            room_min_tiles@,
            act,
        ));
        let ghost tr0 = tr;
        let ghost acts0 = acts@;
        let ghost act_g = act;
        proof {
            tr = tr.push(*state);
        }
        acts.push((idx, act));
        proof {
            assert forall|t: int| 0 <= t < j + 1 implies #[trigger] trace_step(
                tr,
                dues,
                acts@,
                t,
                walkable_types@,
                diggable_types@,
                known_monsters@,
                room_min_tiles@,
            ) by {
                if t < j {
                    assert(trace_step(
                        tr0,
                        dues,
                        acts0,
                        t,
                        walkable_types@,
                        diggable_types@,
                        known_monsters@,
                        room_min_tiles@,
                    ));
                    assert(tr[t] == tr0[t] && tr[t + 1] == tr0[t + 1] && acts@[t] == acts0[t]);
                } else {
                    assert(tr[t] == a && tr[t + 1] == *state);
                    assert(acts@[t] == (idx, act_g));
                }
            }
        }
        j = j + 1;
    }
    assert(keeper_trace(
        tr,
        s0,
        *state,
        dt_ms as int,
        walkable_types@,
        diggable_types@,
        known_monsters@,
        room_min_tiles@,
        acts@,
    ));
    acts
}

/// The cooldown after a raid (`grown_cooldown`).
fn grow_cooldown(cooldown: i64, growth_permille: u32) -> (r: i64)
    ensures
        r as int == grown_cooldown(cooldown as int, growth_permille as int),
{
    let g: i128 = if growth_permille < 1000 { 1000 } else { growth_permille as i128 };
    assert(cooldown * g <= i64::MAX * 4294967295int) by (nonlinear_arith)
        requires cooldown <= i64::MAX, 0 <= g <= 4294967295int;
    assert(cooldown * g >= i64::MIN * 4294967295int) by (nonlinear_arith)
        requires cooldown >= i64::MIN, 0 <= g <= 4294967295int;
    let p: i128 = (cooldown as i128) * g;
    let q: i128 = if p >= 0 { p / 1000 } else { -((-p) / 1000) };
    if q > MAX_ATTACK_COOLDOWN_MS as i128 {
        MAX_ATTACK_COOLDOWN_MS
    } else if q < i64::MIN as i128 {
        i64::MIN
    } else {
        q as i64
    }
}

} // verus!
