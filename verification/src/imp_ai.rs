//! Imp AI: which marked tile an idle imp goes to dig, which tiles other imps
//! already claim as targets, and what digging a tile yields.
use vstd::prelude::*;
use crate::tiles::{TilePos, TileState, Ownership, dist_sq, str_eq};
use crate::grid::{cells, in_bounds};
use crate::world::{GameState, Dungeon, Entity, EntityType, PlayerState, CreatureState, dungeon_wf, on_grid, tile_at};
use crate::campaign::{holds_str, contains_str};
use crate::random::{random_i32, first_try, offsets_in, lemma_first_try_skip, cell_pos, try_pos};
use crate::pathfinding::{find_path, leads, walk_grid_wf, walkable_in};
use crate::connectivity::{flags, cell_of};
use crate::paths::reachable;
use crate::movement::{process_entity_movement, entity_walked};

verus! {

/// The extra cost that makes imps mine gem seams (which never run out) last.
pub const GEM_SEAM_PENALTY: i128 = 10000;

/// `i` is the index of the first entity with the given id.
pub open spec fn entity_index(es: Seq<Entity>, id: u64, i: int) -> bool {
    &&& 0 <= i < es.len()
    &&& es[i].id == id
    &&& forall|j: int| 0 <= j < i ==> (#[trigger] es[j]).id != id
}

/// Some entity has the given id.
pub open spec fn has_entity(es: Seq<Entity>, id: u64) -> bool {
    exists|i: int| 0 <= i < es.len() && (#[trigger] es[i]).id == id
}

/// The index of the entity with the given id (the first one).
pub fn find_entity_index(state: &GameState, id: u64) -> (r: Option<usize>)
    ensures
        r is None <==> !has_entity(state.entities@, id),
        r is Some ==> entity_index(state.entities@, id, r->0 as int),
{
    let mut i: usize = 0;
    while i < state.entities.len()
        invariant
            i <= state.entities@.len(),
            forall|j: int| 0 <= j < i ==> (#[trigger] state.entities@[j]).id != id,
        decreases state.entities@.len() - i,
    {
        if state.entities[i].id == id {
            assert(state.entities@[i as int].id == id);
            return Some(i);
        }
        i = i + 1;
    }
    None
}

/// The last waypoint of a creature's path, if it has a non-empty path.
pub open spec fn path_end(e: Entity) -> Option<TilePos> {
    match e.entity_type {
        EntityType::Creature(c) => match c.current_path {
            Some(p) => if p@.len() > 0 {
                Some(p@.last())
            } else {
                None
            },
            None => None,
        },
        _ => None,
    }
}

/// The tile an imp lays claim to: the end of its path, or where it stands
/// when it has no path.
pub open spec fn imp_target(e: Entity) -> Option<TilePos> {
    match e.entity_type {
        EntityType::Creature(c) => match c.current_path {
            Some(p) => if p@.len() > 0 {
                Some(p@.last())
            } else {
                None
            },
            None => Some(e.pos),
        },
        _ => None,
    }
}

/// No position occurs twice.
pub open spec fn distinct_tiles(v: Seq<TilePos>) -> bool {
    forall|i: int, j: int| 0 <= i < j < v.len() ==> v[i] != v[j]
}

/// Add a position to a list of distinct positions unless it is already there.
pub fn insert_tile(v: &mut Vec<TilePos>, p: TilePos)
    requires
        distinct_tiles(old(v)@),
    ensures
        distinct_tiles(final(v)@),
        forall|q: TilePos| #[trigger] final(v)@.contains(q) <==> (old(v)@.contains(q) || q == p),
{
    let mut i: usize = 0;
    while i < v.len()
        invariant
            i <= v@.len(),
            v@ == old(v)@,
            distinct_tiles(v@),
            forall|j: int| 0 <= j < i ==> v@[j] != p,
        decreases v@.len() - i,
    {
        if v[i] == p {
            assert forall|q: TilePos| #[trigger] v@.contains(q) <==> (v@.contains(q) || q == p) by {
                if q == p {
                    assert(v@[i as int] == q);
                }
            }
            return;
        }
        i = i + 1;
    }
    let ghost before = v@;
    v.push(p);
    assert forall|q: TilePos| #[trigger] v@.contains(q) <==> (before.contains(q) || q == p) by {
        if before.contains(q) {
            let k = choose|k: int| 0 <= k < before.len() && #[trigger] before[k] == q;
            assert(v@[k] == q);
        }
        if q == p {
            assert(v@[before.len() as int] == q);
        }
        if v@.contains(q) {
            let k = choose|k: int| 0 <= k < v@.len() && #[trigger] v@[k] == q;
            if k < before.len() {
                assert(before[k] == q);
            }
        }
    }
}

/// Whether the list holds the position.
pub fn contains_tile(v: &Vec<TilePos>, p: TilePos) -> (r: bool)
    ensures
        r == v@.contains(p),
{
    let mut i: usize = 0;
    while i < v.len()
        invariant
            i <= v@.len(),
            forall|j: int| 0 <= j < i ==> v@[j] != p,
        decreases v@.len() - i,
    {
        if v[i] == p {
            assert(v@[i as int] == p);
            return true;
        }
        i = i + 1;
    }
    false
}

/// The tile that the entity of the given id lays claim to.
pub open spec fn target_of_id(es: Seq<Entity>, id: u64, p: TilePos) -> bool {
    exists|i: int| entity_index(es, id, i) && imp_target(#[trigger] es[i]) == Some(p)
}

/// All tiles currently targeted by the imps of the given ids: each imp's path
/// end, or its own tile when it has no path.
pub fn collect_targeted_tiles(state: &GameState, imp_ids: &Vec<u64>) -> (r: Vec<TilePos>)
    ensures
        distinct_tiles(r@),
        forall|p: TilePos|
            #[trigger] r@.contains(p) <==> exists|k: int|
                0 <= k < imp_ids@.len() && target_of_id(state.entities@, #[trigger] imp_ids@[k], p),
{
    let mut targeted: Vec<TilePos> = Vec::new();
    let mut k: usize = 0;
    while k < imp_ids.len()
        invariant
            k <= imp_ids@.len(),
            distinct_tiles(targeted@),
            forall|p: TilePos|
                #[trigger] targeted@.contains(p) <==> exists|kk: int|
                    0 <= kk < k && target_of_id(state.entities@, #[trigger] imp_ids@[kk], p),
        decreases imp_ids@.len() - k,
    {
        let ghost before = targeted@;
        let id = imp_ids[k];
        let mut added: Option<TilePos> = None;
        if let Some(i) = find_entity_index(state, id) {
            let entity = &state.entities[i];
            if let EntityType::Creature(creature) = &entity.entity_type {
                match &creature.current_path {
                    Some(path) => {
                        if path.len() > 0 {
                            added = Some(path[path.len() - 1]);
                        }
                    },
                    None => {
                        added = Some(entity.pos);
                    },
                }
            }
            assert(added == imp_target(state.entities@[i as int]));
        }
        if let Some(p) = added {
            insert_tile(&mut targeted, p);
        }
        proof {
            assert forall|p: TilePos|
                #[trigger] targeted@.contains(p) <==> exists|kk: int|
                    0 <= kk < k + 1 && target_of_id(state.entities@, #[trigger] imp_ids@[kk], p) by {
                if targeted@.contains(p) {
                    if before.contains(p) {
                        let kk = choose|kk: int|
                            0 <= kk < k && target_of_id(state.entities@, #[trigger] imp_ids@[kk], p);
                        assert(0 <= kk < k + 1 && target_of_id(state.entities@, imp_ids@[kk], p));
                    } else {
                        assert(added == Some(p));
                        let i = choose|i: int| entity_index(state.entities@, id, i);
                        assert(target_of_id(state.entities@, imp_ids@[k as int], p));
                    }
                }
                if exists|kk: int|
                    0 <= kk < k + 1 && target_of_id(state.entities@, #[trigger] imp_ids@[kk], p) {
                    let kk = choose|kk: int|
                        0 <= kk < k + 1 && target_of_id(state.entities@, #[trigger] imp_ids@[kk], p);
                    if kk < k {
                        assert(before.contains(p));
                    } else {
                        let i = choose|i: int|
                            entity_index(state.entities@, id, i) && imp_target(
                                #[trigger] state.entities@[i],
                            ) == Some(p);
                        assert(added == Some(p)) by {
                            if has_entity(state.entities@, id) {
                                let i2 = choose|i2: int| entity_index(state.entities@, id, i2);
                                assert(i2 == i) by {
                                    if i2 < i {
                                        assert(state.entities@[i2].id == id);
                                    } else if i < i2 {
                                        assert(state.entities@[i].id == id);
                                    }
                                }
                            }
                        }
                    }
                }
            }
        }
        k = k + 1;
    }
    targeted
}

/// Mark an imp's own tile and its path end as targeted.
pub fn update_targeted_tiles(
    state: &GameState,
    imp_id: u64,
    imp_pos: TilePos,
    targeted_tiles: &mut Vec<TilePos>,
)
    requires
        distinct_tiles(old(targeted_tiles)@),
    ensures
        distinct_tiles(final(targeted_tiles)@),
        forall|p: TilePos|
            #[trigger] final(targeted_tiles)@.contains(p) <==> (old(targeted_tiles)@.contains(p)
                || p == imp_pos || exists|i: int|
                entity_index(state.entities@, imp_id, i) && path_end(#[trigger] state.entities@[i])
                    == Some(p)),
{
    insert_tile(targeted_tiles, imp_pos);
    let ghost mid = targeted_tiles@;
    let mut end: Option<TilePos> = None;
    if let Some(i) = find_entity_index(state, imp_id) {
        if let EntityType::Creature(creature) = &state.entities[i].entity_type {
            if let Some(path) = &creature.current_path {
                if path.len() > 0 {
                    end = Some(path[path.len() - 1]);
                }
            }
        }
        assert(end == path_end(state.entities@[i as int]));
    }
    if let Some(p) = end {
        insert_tile(targeted_tiles, p);
    }
    proof {
        assert forall|p: TilePos|
            #[trigger] targeted_tiles@.contains(p) <==> (old(targeted_tiles)@.contains(p)
                || p == imp_pos || exists|i: int|
                entity_index(state.entities@, imp_id, i) && path_end(#[trigger] state.entities@[i])
                    == Some(p)) by {
            if exists|i: int|
                entity_index(state.entities@, imp_id, i) && path_end(#[trigger] state.entities@[i])
                    == Some(p) {
                let i = choose|i: int|
                    entity_index(state.entities@, imp_id, i) && path_end(
                        #[trigger] state.entities@[i],
                    ) == Some(p);
                let i2 = choose|i2: int| entity_index(state.entities@, imp_id, i2);
                assert(i2 == i) by {
                    if i2 < i {
                        assert(state.entities@[i2].id == imp_id);
                    } else if i < i2 {
                        assert(state.entities@[i].id == imp_id);
                    }
                }
            }
        }
    }
}

/// The cost for an imp at `imp_pos` to dig the tile at `(x, y)`: the squared
/// distance, plus a penalty on gem seams.
pub open spec fn dig_cost(d: Dungeon, imp_pos: TilePos, x: int, y: int) -> int {
    let p = TilePos { x: x as i32, y: y as i32 };
    dist_sq(p, imp_pos) + if tile_at(d, p).tile_type@ == "gem_seam"@ {
        GEM_SEAM_PENALTY as int
    } else {
        0
    }
}

/// The tile at `(x, y)` is marked for digging and not targeted by another imp.
pub open spec fn dig_candidate(d: Dungeon, imp_pos: TilePos, targeted: Seq<TilePos>, x: int, y: int) -> bool {
    let p = TilePos { x: x as i32, y: y as i32 };
    &&& 0 <= x < d.width
    &&& 0 <= y < d.height
    &&& !(p != imp_pos && targeted.contains(p))
    &&& tile_at(d, p).marked_for_dig
}

/// `(x, y)` comes before `(x2, y2)` row after row.
pub open spec fn scan_before(x: int, y: int, x2: int, y2: int) -> bool {
    y < y2 || (y == y2 && x < x2)
}

/// `(x, y)` is the first of the cheapest dig candidates.
pub open spec fn nearest_marked(d: Dungeon, imp_pos: TilePos, targeted: Seq<TilePos>, x: int, y: int) -> bool {
    &&& dig_candidate(d, imp_pos, targeted, x, y)
    &&& forall|x2: int, y2: int|
        #[trigger] dig_candidate(d, imp_pos, targeted, x2, y2) ==> dig_cost(d, imp_pos, x, y) <= dig_cost(
            d,
            imp_pos,
            x2,
            y2,
        ) && (scan_before(x2, y2, x, y) ==> dig_cost(d, imp_pos, x, y) < dig_cost(d, imp_pos, x2, y2))
}

/// Find the nearest marked tile not targeted by other imps (gem seams last).
pub fn find_nearest_marked_tile(dungeon: &Dungeon, imp_pos: TilePos, targeted_tiles: &Vec<TilePos>) -> (r:
    Option<TilePos>)
    requires
        dungeon_wf(*dungeon),
    ensures
        r is None <==> forall|x: int, y: int| !#[trigger] dig_candidate(*dungeon, imp_pos, targeted_tiles@, x, y),
        r is Some ==> exists|x: int, y: int|
            #[trigger] nearest_marked(*dungeon, imp_pos, targeted_tiles@, x, y) && r->0 == (TilePos {
                x: x as i32,
                y: y as i32,
            }),
{
    let d = dungeon;
    let mut best: Option<(usize, usize)> = None;
    let mut min_cost: i128 = 0;
    let mut y: usize = 0;
    while y < d.height
        invariant
            d == dungeon,
            dungeon_wf(*d),
            y <= d.height,
            best is None ==> forall|x2: int, y2: int|
                y2 < y ==> !#[trigger] dig_candidate(*d, imp_pos, targeted_tiles@, x2, y2),
            best matches Some(b) ==> {
                &&& dig_candidate(*d, imp_pos, targeted_tiles@, b.0 as int, b.1 as int)
                &&& min_cost == dig_cost(*d, imp_pos, b.0 as int, b.1 as int)
                &&& b.1 < y
                &&& forall|x2: int, y2: int|
                    #[trigger] dig_candidate(*d, imp_pos, targeted_tiles@, x2, y2) && y2 < y ==> min_cost
                        <= dig_cost(*d, imp_pos, x2, y2) && (scan_before(x2, y2, b.0 as int, b.1 as int)
                        ==> min_cost < dig_cost(*d, imp_pos, x2, y2))
            },
        decreases d.height - y,
    {
        let mut x: usize = 0;
        while x < d.width
            invariant
                d == dungeon,
                dungeon_wf(*d),
                y < d.height,
                x <= d.width,
                best is None ==> forall|x2: int, y2: int|
                    (y2 < y || (y2 == y && x2 < x)) ==> !#[trigger] dig_candidate(
                        *d,
                        imp_pos,
                        targeted_tiles@,
                        x2,
                        y2,
                    ),
                best matches Some(b) ==> {
                    &&& dig_candidate(*d, imp_pos, targeted_tiles@, b.0 as int, b.1 as int)
                    &&& min_cost == dig_cost(*d, imp_pos, b.0 as int, b.1 as int)
                    &&& scan_before(b.0 as int, b.1 as int, x as int, y as int)
                    &&& forall|x2: int, y2: int|
                        #[trigger] dig_candidate(*d, imp_pos, targeted_tiles@, x2, y2) && (y2 < y || (y2
                            == y && x2 < x)) ==> min_cost <= dig_cost(*d, imp_pos, x2, y2) && (
                        scan_before(x2, y2, b.0 as int, b.1 as int) ==> min_cost < dig_cost(
                            *d,
                            imp_pos,
                            x2,
                            y2,
                        ))
                },
            decreases d.width - x,
        {
            let pos = TilePos::new(x as i32, y as i32);
            let skip = pos != imp_pos && contains_tile(targeted_tiles, pos);
            if !skip {
                if let Some(tile) = d.get_tile(pos) {
                    if tile.marked_for_dig {
                        let mut cost = pos.distance_squared(&imp_pos);
                        if str_eq(tile.tile_type.as_str(), "gem_seam") {
                            cost = cost + GEM_SEAM_PENALTY;
                        }
                        assert(dig_cost(*d, imp_pos, x as int, y as int) == cost);
                        if best.is_none() || cost < min_cost {
                            min_cost = cost;
                            best = Some((x, y));
                        }
                    }
                }
            }
            x = x + 1;
        }
        y = y + 1;
    }
    match best {
        Some(b) => {
            assert(nearest_marked(*d, imp_pos, targeted_tiles@, b.0 as int, b.1 as int));
            Some(TilePos::new(b.0 as i32, b.1 as i32))
        },
        None => None,
    }
}

/// What digging a tile of this type yields: gold, mana, and whether the tile
/// is a gem seam (which is never used up).
pub open spec fn dig_yield(t: TileState) -> (int, int, bool) {
    if t.tile_type@ == "gold_vein"@ {
        (
            match t.resources_remaining {
                Some(r) => if 50 <= (r as i32) {
                    50
                } else {
                    (r as i32) as int
                },
                None => 50,
            },
            0,
            false,
        )
    } else if t.tile_type@ == "gem_seam"@ {
        (25, 0, true)
    } else if t.tile_type@ == "mana_crystal"@ {
        (
            0,
            match t.resources_remaining {
                Some(r) => if 20 <= (r as i32) {
                    20
                } else {
                    (r as i32) as int
                },
                None => 20,
            },
            false,
        )
    } else {
        (0, 0, false)
    }
}

/// The player's resources after digging out a tile with the given yield.
pub open spec fn player_after_dig(p: PlayerState, y: (int, int, bool)) -> PlayerState {
    if y.2 {
        PlayerState { gold: (p.gold + y.0) as i32, ..p }
    } else {
        let p2 = PlayerState { claimed_tile_count: (p.claimed_tile_count + 1) as u32, ..p };
        if y.0 > 0 {
            PlayerState { gold: (p.gold + y.0) as i32, ..p2 }
        } else if y.1 > 0 {
            PlayerState {
                mana: if p.mana + y.1 <= p.max_mana {
                    (p.mana + y.1) as i32
                } else {
                    p.max_mana
                },
                ..p2
            }
        } else {
            p2
        }
    }
}

/// The resource amounts involved in digging stay within `i32` and `u32`.
pub open spec fn dig_fits(p: PlayerState) -> bool {
    &&& p.gold + 50 <= i32::MAX
    &&& p.mana + 20 <= i32::MAX
    &&& p.claimed_tile_count < u32::MAX
}

/// Two grids agree everywhere but at `pos`.
pub open spec fn grid_same_but_at(a: Seq<Seq<TileState>>, b: Seq<Seq<TileState>>, pos: TilePos) -> bool {
    &&& a.len() == b.len()
    &&& forall|y: int| 0 <= y < a.len() ==> #[trigger] a[y].len() == b[y].len()
    &&& forall|y: int, x: int|
        #![trigger b[y][x]]
        0 <= y < a.len() && 0 <= x < a[y].len() && !(x == pos.x && y == pos.y) ==> b[y][x] == a[y][x]
}

/// The outcome of `complete_dig` at `pos`: from dungeon `d0` and purse `p0`
/// to dungeon `d1` and purse `p1`.
pub open spec fn dig_done(d0: Dungeon, p0: PlayerState, pos: TilePos, d1: Dungeon, p1: PlayerState) -> bool {
    &&& dungeon_wf(d1)
    &&& d1.width == d0.width
    &&& d1.height == d0.height
    &&& !(on_grid(d0, pos) && tile_at(d0, pos).marked_for_dig) ==> {
        &&& d1.grid == d0.grid
        &&& p1 == p0
    }
    &&& on_grid(d0, pos) && tile_at(d0, pos).marked_for_dig ==> {
        let t0 = tile_at(d0, pos);
        let t1 = tile_at(d1, pos);
        let y = dig_yield(t0);
        &&& p1 == player_after_dig(p0, y)
        &&& grid_same_but_at(cells(&d0.grid), cells(&d1.grid), pos)
        &&& y.2 ==> t1 == t0
        &&& !y.2 ==> {
            &&& t1.tile_type@ == "claimed_floor"@
            &&& t1.ownership == Ownership::Player
            &&& !t1.marked_for_dig
            &&& t1.resources_remaining is None
            &&& t1.pos == t0.pos
            &&& t1.owner == t0.owner
            &&& t1.room_id == t0.room_id
            &&& t1.fog_state == t0.fog_state
        }
    }
}

/// Finish digging the marked tile at `marked_pos`: gem seams pay gold and stay
/// marked; other tiles become claimed floor of the player and pay out their
/// gold or mana (mana up to the player's maximum).
pub fn complete_dig(dungeon: &mut Dungeon, player: &mut PlayerState, marked_pos: TilePos)
    requires
        dungeon_wf(*old(dungeon)),
        dig_fits(*old(player)),
    ensures
        dig_done(*old(dungeon), *old(player), marked_pos, *final(dungeon), *final(player)),
{
    let marked = match dungeon.get_tile(marked_pos) {
        Some(tile) => tile.marked_for_dig,
        None => false,
    };
    if !marked {
        return;
    }
    let x = marked_pos.x as usize;
    let y = marked_pos.y as usize;
    let ghost before = cells(&dungeon.grid);
    let ghost t0 = tile_at(*dungeon, marked_pos);
    assert(dungeon.grid@[y as int]@.len() == dungeon.width) by {
        assert(cells(&dungeon.grid)[y as int].len() == cells(&dungeon.grid)[0].len());
    }
    let (gold_gained, mana_gained, is_gem_seam): (i32, i32, bool) = {
        let tile = &dungeon.grid[y][x];
        if str_eq(tile.tile_type.as_str(), "gold_vein") {
            let g: i32 = match tile.resources_remaining {
                Some(r) => if 50 <= (r as i32) {
                    50
                } else {
                    r as i32
                },
                None => 50,
            };
            (g, 0, false)
        } else if str_eq(tile.tile_type.as_str(), "gem_seam") {
            (25, 0, true)
        } else if str_eq(tile.tile_type.as_str(), "mana_crystal") {
            let m: i32 = match tile.resources_remaining {
                Some(r) => if 20 <= (r as i32) {
                    20
                } else {
                    r as i32
                },
                None => 20,
            };
            (0, m, false)
        } else {
            (0, 0, false)
        }
    };
    assert((gold_gained as int, mana_gained as int, is_gem_seam) == dig_yield(t0));
    if is_gem_seam {
        player.gold = player.gold + gold_gained;
    } else {
        let tile = &mut dungeon.grid[y][x];
        tile.tile_type = crate::tiles::owned("claimed_floor");
        tile.ownership = Ownership::Player;
        tile.marked_for_dig = false;
        tile.resources_remaining = None;
        player.claimed_tile_count = player.claimed_tile_count + 1;
        if gold_gained > 0 {
            player.gold = player.gold + gold_gained;
        } else if mana_gained > 0 {
            let m = player.mana + mana_gained;
            player.mana = if m <= player.max_mana {
                m
            } else {
                player.max_mana
            };
        }
        proof {
            let after = cells(&dungeon.grid);
            assert forall|yy: int| 0 <= yy < after.len() implies #[trigger] after[yy].len()
                == after[0].len() by {
                assert(before[yy].len() == before[0].len());
            }
            assert forall|xx: int, yy: int| #![trigger after[yy][xx]] in_bounds(after, xx, yy)
                implies after[yy][xx].pos == (TilePos { x: xx as i32, y: yy as i32 }) by {
                assert(before[yy].len() == before[0].len());
                assert(in_bounds(before, xx, yy));
            }
        }
    }
}

/// Digging out a tile that is not a gem seam finishes it: digging there again
/// changes neither the dungeon nor the player's purse.
pub proof fn dug_tile_is_done(
    d0: Dungeon,
    p0: PlayerState,
    d1: Dungeon,
    p1: PlayerState,
    d2: Dungeon,
    p2: PlayerState,
    pos: TilePos,
)
    requires
        dungeon_wf(d0),
        !dig_yield(tile_at(d0, pos)).2,
        dig_done(d0, p0, pos, d1, p1),
        dig_done(d1, p1, pos, d2, p2),
    ensures
        d2.grid == d1.grid,
        p2 == p1,
{
    if on_grid(d0, pos) && tile_at(d0, pos).marked_for_dig {
        assert(!tile_at(d1, pos).marked_for_dig);
    }
}

/// A gem seam is never used up: after it is dug it is still there, still
/// marked, and digging it again pays another 25 gold.
pub proof fn gem_seam_stays_marked(d0: Dungeon, p0: PlayerState, d1: Dungeon, p1: PlayerState, pos: TilePos)
    requires
        dungeon_wf(d0),
        on_grid(d0, pos),
        tile_at(d0, pos).marked_for_dig,
        tile_at(d0, pos).tile_type@ == "gem_seam"@,
        dig_fits(p0),
        dig_done(d0, p0, pos, d1, p1),
    ensures
        tile_at(d1, pos) == tile_at(d0, pos),
        tile_at(d1, pos).marked_for_dig,
        p1.gold == p0.gold + 25,
{
    reveal_strlit("gem_seam");
    reveal_strlit("gold_vein");
    assert("gem_seam"@ != "gold_vein"@) by {
        assert("gem_seam"@[1] != "gold_vein"@[1]);
    }
}

/// How long an imp digs at a marked tile before it is done, in milliseconds.
pub const DIG_TIME_MS: u64 = 2_000;

/// How far an imp wanders from where it stands, at most.
pub const WANDER_RADIUS: i32 = 5;

/// What an idle imp did or wants done.
#[derive(Debug)]
pub enum ImpAction {
    /// Finished digging the marked tile it stands on.
    Dug(TilePos),
    /// Digs on at the marked tile it stands on.
    Digging,
    /// Wants to walk to `target` (the caller finds the path); with
    /// `include_marked` the path may cross tiles marked for digging.
    PathTo { target: TilePos, include_marked: bool },
    /// Found nothing to do.
    Idle,
}

/// The tile an imp at `imp_pos` goes to dig: the one that `nearest_marked`
/// singles out, if any.
pub open spec fn dig_target(d: Dungeon, imp_pos: TilePos, targeted: Seq<TilePos>) -> Option<TilePos> {
    if exists|x: int, y: int| nearest_marked(d, imp_pos, targeted, x, y) {
        let (x, y) = choose|x: int, y: int| nearest_marked(d, imp_pos, targeted, x, y);
        Some(TilePos { x: x as i32, y: y as i32 })
    } else {
        None
    }
}

/// Two tiles that both are the nearest are the same.
proof fn lemma_nearest_unique(d: Dungeon, imp_pos: TilePos, targeted: Seq<TilePos>, x: int, y: int, x2: int, y2: int)
    requires
        nearest_marked(d, imp_pos, targeted, x, y),
        nearest_marked(d, imp_pos, targeted, x2, y2),
    ensures
        x == x2 && y == y2,
{
    assert(dig_candidate(d, imp_pos, targeted, x2, y2));
    assert(dig_candidate(d, imp_pos, targeted, x, y));
}

/// The creature of the entity with id `id` (the first with that id), with its
/// index, if that entity is a creature.
pub open spec fn creature_slot(es: Seq<Entity>, id: u64) -> Option<(int, CreatureState)> {
    if exists|i: int| entity_index(es, id, i) {
        let i = choose|i: int| entity_index(es, id, i);
        match es[i].entity_type {
            EntityType::Creature(c) => Some((i, c)),
            _ => None,
        }
    } else {
        None
    }
}

/// `s1` is `s0` with the creature at `i` given the task time `t`.
pub open spec fn with_task_time(s0: GameState, s1: GameState, i: int, c: CreatureState, t: int) -> bool {
    &&& s1 == (GameState { entities: s1.entities, ..s0 })
    &&& s1.entities@ == s0.entities@.update(
        i,
        Entity { entity_type: EntityType::Creature(CreatureState { task_time_ms: t as u64, ..c }), ..s0.entities@[i] },
    )
}

/// A tile an imp at `imp_pos` may wander to: on the grid, of a walkable type,
/// not its own tile, on its row or up to the wander radius around it, between
/// three radii to its left and one to its right (the horizontal draw is
/// skewed left, the vertical one up in the same way).
pub open spec fn wander_spot(d: Dungeon, walkable: Seq<String>, imp_pos: TilePos, t: TilePos) -> bool {
    &&& on_grid(d, t)
    &&& holds_str(walkable, tile_at(d, t).tile_type@)
    &&& t != imp_pos
    &&& -3 * WANDER_RADIUS <= t.x - imp_pos.x <= WANDER_RADIUS
    &&& -3 * WANDER_RADIUS <= t.y - imp_pos.y <= WANDER_RADIUS
}

/// One step of an idle imp (id `imp_id`, at `imp_pos`) from `s0` to `s1` after
/// `dt` milliseconds, with action `r`. The imp heads for its `dig_target`: at
/// it, it digs, and once its task time reaches `DIG_TIME_MS` the tile is dug
/// (`complete_dig`) and the time starts over; elsewhere its task time starts
/// over and it asks to walk there. With no target it may ask to wander.
pub open spec fn imp_stepped(
    s0: GameState,
    s1: GameState,
    imp_id: u64,
    imp_pos: TilePos,
    targeted: Seq<TilePos>,
    dt: int,
    walkable: Seq<String>,
    r: ImpAction,
) -> bool {
    match dig_target(s0.dungeon, imp_pos, targeted) {
        Some(m) => if m == imp_pos {
            match creature_slot(s0.entities@, imp_id) {
                Some((i, c)) => {
                    let t = if c.task_time_ms + dt > u64::MAX { u64::MAX as int } else { c.task_time_ms + dt };
                    if t >= DIG_TIME_MS {
                        let mid = GameState { dungeon: s1.dungeon, player: s1.player, ..s0 };
                        &&& r == ImpAction::Dug(m)
                        &&& dig_done(s0.dungeon, s0.player, m, s1.dungeon, s1.player)
                        &&& with_task_time(mid, s1, i, c, 0)
                    } else {
                        r == ImpAction::Digging && with_task_time(s0, s1, i, c, t)
                    }
                },
                None => r == ImpAction::Idle && s1 == s0,
            }
        } else {
            &&& r == (ImpAction::PathTo { target: m, include_marked: true })
            &&& match creature_slot(s0.entities@, imp_id) {
                Some((i, c)) => with_task_time(s0, s1, i, c, 0),
                None => s1 == s0,
            }
        },
        None => {
            &&& s1 == s0
            &&& match r {
                ImpAction::PathTo { target, include_marked } => !include_marked && wander_spot(
                    s0.dungeon,
                    walkable,
                    imp_pos,
                    target,
                ),
                ImpAction::Idle => true,
                _ => false,
            }
        },
    }
}

/// The wander offset of the draw `r`: Rust's remainder of `r` by twice the
/// radius plus one (its sign that of `r`), minus the radius.
pub open spec fn offset_of_draw(r: i32) -> int {
    let span: int = 2 * WANDER_RADIUS + 1;
    let v: int = r as int;
    (if v >= 0 { v % span } else { -((-v) % span) }) - WANDER_RADIUS
}

/// One wander offset from a random draw: Rust's remainder of the draw by
/// twice the radius plus one, minus the radius.
fn wander_offset() -> (d: i64)
    ensures
        -3 * WANDER_RADIUS <= d <= WANDER_RADIUS,
        exists|r: i32| d == #[trigger] offset_of_draw(r),
{
    let r0 = random_i32();
    let r = r0 as i64;
    let span: i64 = (WANDER_RADIUS * 2 + 1) as i64;
    let rem: i64 = if r >= 0 {
        r % span
    } else {
        -((-r) % span)
    };
    let d = rem - WANDER_RADIUS as i64;
    assert(d == offset_of_draw(r0));
    d
}

/// An imp at `pos` may wander to the cell `c`: on the map, of a walkable
/// type, and not its own tile.
pub open spec fn imp_wander_hit(d: Dungeon, walkable: Seq<String>, pos: TilePos) -> spec_fn((int, int)) -> bool {
    |c: (int, int)| imp_wander_open(d, walkable, c) && cell_pos(c) != pos
}

/// Drawing the imp's own tile ends its tries.
pub open spec fn imp_wander_stop(d: Dungeon, walkable: Seq<String>, pos: TilePos) -> spec_fn((int, int)) -> bool {
    |c: (int, int)| imp_wander_open(d, walkable, c) && cell_pos(c) == pos
}

/// The cell `c` is on the map and of a walkable type.
pub open spec fn imp_wander_open(d: Dungeon, walkable: Seq<String>, c: (int, int)) -> bool {
    0 <= c.0 < d.width && 0 <= c.1 < d.height && holds_str(walkable, tile_at(d, cell_pos(c)).tile_type@)
}

/// Up to ten random tries at a tile near `imp_pos` that the imp may wander to
/// (see `wander_spot`): the outcome of ten offsets drawn in `-15..=5` (see
/// `wander_offset`), where a walkable draw of its own tile ends the tries
/// with nothing.
pub fn wander_randomly(dungeon: &Dungeon, imp_pos: TilePos, walkable_types: &Vec<String>) -> (r: Option<TilePos>)
    requires
        dungeon_wf(*dungeon),
    ensures
        r matches Some(t) ==> wander_spot(*dungeon, walkable_types@, imp_pos, t),
        exists|offs: Seq<(int, int)>|
            {
                &&& offs.len() == 10
                &&& offsets_in(offs, -3 * WANDER_RADIUS as int, WANDER_RADIUS as int)
                &&& r == try_pos(#[trigger] first_try(
                    (imp_pos.x as int, imp_pos.y as int),
                    offs,
                    imp_wander_hit(*dungeon, walkable_types@, imp_pos),
                    imp_wander_stop(*dungeon, walkable_types@, imp_pos),
                ))
            },
{
    let ghost center = (imp_pos.x as int, imp_pos.y as int);
    let ghost hit = imp_wander_hit(*dungeon, walkable_types@, imp_pos);
    let ghost stop = imp_wander_stop(*dungeon, walkable_types@, imp_pos);
    let ghost mut tried: Seq<(int, int)> = Seq::empty();
    let mut attempts: u32 = 0;
    while attempts < 10
        invariant
            dungeon_wf(*dungeon),
            attempts <= 10,
            center == (imp_pos.x as int, imp_pos.y as int),
            hit == imp_wander_hit(*dungeon, walkable_types@, imp_pos),
            stop == imp_wander_stop(*dungeon, walkable_types@, imp_pos),
            tried.len() == attempts,
            offsets_in(tried, -3 * WANDER_RADIUS as int, WANDER_RADIUS as int),
            forall|k: int|
                0 <= k < tried.len() ==> !stop((center.0 + (#[trigger] tried[k]).0, center.1 + tried[k].1)) && !hit(
                    (center.0 + tried[k].0, center.1 + tried[k].1),
                ),
        decreases 10 - attempts,
    {
        let dx = wander_offset();
        let dy = wander_offset();
        let cx = imp_pos.x as i64 + dx;
        let cy = imp_pos.y as i64 + dy;
        let ghost c = (cx as int, cy as int);
        attempts = attempts + 1;
        let ghost rest = seq![(dx as int, dy as int)] + Seq::new((10 - attempts) as nat, |i: int| (0int, 0int));
        let ghost offs = tried + rest;
        proof {
            assert(rest[0] == (dx as int, dy as int));
            assert(offsets_in(offs, -3 * WANDER_RADIUS as int, WANDER_RADIUS as int)) by {
                assert forall|k: int| 0 <= k < offs.len() implies -15 <= (#[trigger] offs[k]).0 <= 5 && -15 <= offs[k].1 <= 5 by {
                    if k < tried.len() {
                        assert(offs[k] == tried[k]);
                    } else {
                        assert(offs[k] == rest[k - tried.len()]);
                    }
                }
            }
        }
        if 0 <= cx && cx < dungeon.width as i64 && 0 <= cy && cy < dungeon.height as i64 {
            let candidate = TilePos { x: cx as i32, y: cy as i32 };
            assert(cell_pos(c) == candidate);
            let tile = match dungeon.get_tile(candidate) {
                Some(t) => t,
                None => {
                    return None;
                },
            };
            if contains_str(walkable_types, tile.tile_type.as_str()) {
                if candidate.x == imp_pos.x && candidate.y == imp_pos.y {
                    proof {
                        lemma_first_try_skip(center, tried, rest, hit, stop);
                        assert(stop(c));
                        assert(first_try(center, offs, hit, stop) is None);
                    }
                    return None;
                }
                proof {
                    lemma_first_try_skip(center, tried, rest, hit, stop);
                    assert(hit(c) && !stop(c));
                    assert(first_try(center, offs, hit, stop) == Some(c));
                }
                return Some(candidate);
            }
        }
        proof {
            let t0 = tried;
            assert(!hit(c) && !stop(c));
            tried = tried.push((dx as int, dy as int));
            assert forall|k: int|
                0 <= k < tried.len() implies !stop((center.0 + (#[trigger] tried[k]).0, center.1 + tried[k].1)) && !hit(
                    (center.0 + tried[k].0, center.1 + tried[k].1),
                ) by {
                if k < t0.len() {
                    assert(tried[k] == t0[k]);
                }
            }
        }
    }
    proof {
        lemma_first_try_skip(center, tried, Seq::empty(), hit, stop);
        assert(tried + Seq::<(int, int)>::empty() =~= tried);
    }
    None
}

/// One step of an idle imp (see `imp_stepped`).
pub fn process_idle_imp(
    state: &mut GameState,
    imp_id: u64,
    imp_pos: TilePos,
    targeted_tiles: &Vec<TilePos>,
    dt_ms: u64,
    walkable_types: &Vec<String>,
) -> (r: ImpAction)
    requires
        dungeon_wf(old(state).dungeon),
        dig_fits(old(state).player),
    ensures
        imp_stepped(*old(state), *final(state), imp_id, imp_pos, targeted_tiles@, dt_ms as int, walkable_types@, r),
{
    let ghost s0 = *state;
    let nearest = find_nearest_marked_tile(&state.dungeon, imp_pos, targeted_tiles);
    proof {
        match nearest {
            Some(m) => {
                let (x, y) = choose|x: int, y: int|
                    #[trigger] nearest_marked(s0.dungeon, imp_pos, targeted_tiles@, x, y) && m == (TilePos {
                        x: x as i32,
                        y: y as i32,
                    });
                let (x2, y2) = choose|x2: int, y2: int| nearest_marked(s0.dungeon, imp_pos, targeted_tiles@, x2, y2);
                lemma_nearest_unique(s0.dungeon, imp_pos, targeted_tiles@, x, y, x2, y2);
                assert(dig_target(s0.dungeon, imp_pos, targeted_tiles@) == Some(m));
            },
            None => {
                if exists|x: int, y: int| nearest_marked(s0.dungeon, imp_pos, targeted_tiles@, x, y) {
                    let (x, y) = choose|x: int, y: int| nearest_marked(s0.dungeon, imp_pos, targeted_tiles@, x, y);
                    assert(dig_candidate(s0.dungeon, imp_pos, targeted_tiles@, x, y));
                }
            },
        }
    }
    let slot = find_entity_index(state, imp_id);
    proof {
        if let Some(i) = slot {
            assert forall|k: int| entity_index(s0.entities@, imp_id, k) implies k == i by {
                if k < i {
                    assert(s0.entities@[k].id != imp_id);
                }
                if i < k {
                    assert(s0.entities@[i as int].id != imp_id);
                }
            }
        } else {
            assert forall|k: int| !entity_index(s0.entities@, imp_id, k) by {
                if entity_index(s0.entities@, imp_id, k) {
                    assert(s0.entities@[k].id == imp_id);
                }
            }
        }
    }
    match nearest {
        Some(marked_pos) => {
            if marked_pos.x == imp_pos.x && marked_pos.y == imp_pos.y {
                let i = match slot {
                    Some(i) => i,
                    None => {
                        return ImpAction::Idle;
                    },
                };
                if !state.entities[i].is_creature() {
                    return ImpAction::Idle;
                }
                let done = match &mut state.entities[i].entity_type {
                    EntityType::Creature(c) => {
                        let t = c.task_time_ms.saturating_add(dt_ms);
                        if t >= DIG_TIME_MS {
                            c.task_time_ms = 0;
                            true
                        } else {
                            c.task_time_ms = t;
                            false
                        }
                    },
                    _ => false,
                };
                if done {
                    let ghost mid = *state;
                    complete_dig(&mut state.dungeon, &mut state.player, marked_pos);
                    assert(mid == GameState { dungeon: mid.dungeon, player: mid.player, ..*state });
                    ImpAction::Dug(marked_pos)
                } else {
                    ImpAction::Digging
                }
            } else {
                if let Some(i) = slot {
                    if state.entities[i].is_creature() {
                        match &mut state.entities[i].entity_type {
                            EntityType::Creature(c) => {
                                c.task_time_ms = 0;
                            },
                            _ => {},
                        }
                    }
                }
                ImpAction::PathTo { target: marked_pos, include_marked: true }
            }
        },
        None => {
            match wander_randomly(&state.dungeon, imp_pos, walkable_types) {
                Some(t) => ImpAction::PathTo { target: t, include_marked: false },
                None => ImpAction::Idle,
            }
        },
    }
}

/// Whether an imp may walk on the tile at `(x, y)`: a tile of the player, or,
/// with `include_marked`, one marked for digging.
pub open spec fn imp_walkable(d: Dungeon, include_marked: bool, x: int, y: int) -> bool {
    let t = d.grid@[y]@[x];
    t.ownership == Ownership::Player || (include_marked && t.marked_for_dig)
}

/// Where imps may walk, row by row (see `imp_walkable`).
pub open spec fn imp_walk_cells(d: Dungeon, include_marked: bool) -> Seq<Seq<bool>> {
    Seq::new(d.height as nat, |y: int| Seq::new(d.width as nat, |x: int| imp_walkable(d, include_marked, x, y)))
}

/// The walkability grid for imps (see `imp_walkable`).
pub fn imp_walk_grid(dungeon: &Dungeon, include_marked: bool) -> (vv: Vec<Vec<bool>>)
    requires
        dungeon_wf(*dungeon),
    ensures
        walk_grid_wf(flags(&vv)),
        flags(&vv).len() == dungeon.height,
        flags(&vv)[0].len() == dungeon.width,
        forall|x: int, y: int|
            #![trigger flags(&vv)[y][x]]
            0 <= y < dungeon.height && 0 <= x < dungeon.width ==> flags(&vv)[y][x] == imp_walkable(
                *dungeon,
                include_marked,
                x,
                y,
            ),
{
    let ghost g = cells(&dungeon.grid);
    let mut vv: Vec<Vec<bool>> = Vec::new();
    let mut y: usize = 0;
    while y < dungeon.height
        invariant
            dungeon_wf(*dungeon),
            g == cells(&dungeon.grid),
            y <= dungeon.height,
            vv@.len() == y,
            forall|yy: int| 0 <= yy < y ==> #[trigger] vv@[yy]@.len() == dungeon.width,
            forall|x: int, yy: int|
                #![trigger vv@[yy]@[x]]
                0 <= yy < y && 0 <= x < dungeon.width ==> vv@[yy]@[x] == imp_walkable(*dungeon, include_marked, x, yy),
        decreases dungeon.height - y,
    {
        proof {
            assert(g[y as int].len() == g[0].len());
        }
        let mut row: Vec<bool> = Vec::new();
        let mut x: usize = 0;
        while x < dungeon.width
            invariant
                dungeon_wf(*dungeon),
                g == cells(&dungeon.grid),
                y < dungeon.height,
                dungeon.grid@[y as int]@.len() == dungeon.width,
                x <= dungeon.width,
                row@.len() == x,
                forall|xx: int| #![trigger row@[xx]] 0 <= xx < x ==> row@[xx] == imp_walkable(*dungeon, include_marked, xx, y as int),
            decreases dungeon.width - x,
        {
            let t = &dungeon.grid[y][x];
            let owned_by_player = match t.ownership {
                Ownership::Player => true,
                _ => false,
            };
            row.push(owned_by_player || (include_marked && t.marked_for_dig));
            x = x + 1;
        }
        vv.push(row);
        y = y + 1;
    }
    proof {
        assert(flags(&vv)[0].len() == dungeon.width);
        assert forall|yy: int| 0 <= yy < flags(&vv).len() implies #[trigger] flags(&vv)[yy].len() == flags(&vv)[0].len() by {
            assert(vv@[yy]@.len() == dungeon.width);
        }
    }
    vv
}

/// What `pathfind_to_target` does to the entities `es0` (becoming `es1`):
/// `found` says whether the target can be reached over the tiles an imp may
/// walk; if so, the first entity with id `imp_id`, when a creature, gets a
/// walk there as its path; nothing else changes.
pub open spec fn path_assigned(
    d: Dungeon,
    es0: Seq<Entity>,
    es1: Seq<Entity>,
    imp_id: u64,
    imp_pos: TilePos,
    target_pos: TilePos,
    include_marked: bool,
    found: bool,
) -> bool {
    let walk = walkable_in(imp_walk_cells(d, include_marked));
    &&& found == reachable(walk, cell_of(imp_pos), cell_of(target_pos))
    &&& es1.len() == es0.len()
    &&& forall|j: int| 0 <= j < es0.len() ==> {
        let e0 = es0[j];
        let e1 = #[trigger] es1[j];
        if found && entity_index(es0, imp_id, j) && e0.entity_type is Creature {
            e1 == (Entity { entity_type: e1.entity_type, ..e0 }) && match (e0.entity_type, e1.entity_type) {
                (EntityType::Creature(c0), EntityType::Creature(c1)) => {
                    &&& c1 == (CreatureState { current_path: c1.current_path, ..c0 })
                    &&& c1.current_path matches Some(p) && leads(imp_walk_cells(d, include_marked), imp_pos, target_pos, p@)
                },
                _ => false,
            }
        } else {
            e1 == e0
        }
    }
}

/// Send the creature with id `imp_id` (the first entity with that id) from
/// `imp_pos` toward `target_pos` over the tiles an imp may walk (see
/// `imp_walkable`): when the target can be reached its path becomes a walk
/// there (see `find_path`); otherwise nothing changes. Says whether a path
/// was found.
pub fn pathfind_to_target(
    dungeon: &Dungeon,
    entities: &mut Vec<Entity>,
    imp_id: u64,
    imp_pos: TilePos,
    target_pos: TilePos,
    include_marked: bool,
) -> (found: bool)
    requires
        dungeon_wf(*dungeon),
    ensures
        path_assigned(*dungeon, old(entities)@, final(entities)@, imp_id, imp_pos, target_pos, include_marked, found),
{
    let vv = imp_walk_grid(dungeon, include_marked);
    let ghost want = imp_walk_cells(*dungeon, include_marked);
    proof {
        assert(flags(&vv) =~= want) by {
            assert forall|y: int| 0 <= y < want.len() implies #[trigger] flags(&vv)[y] =~= want[y] by {
                assert(flags(&vv)[y].len() == flags(&vv)[0].len());
            }
        }
    }
    let path = match find_path(&vv, imp_pos, target_pos) {
        Some(p) => p,
        None => {
            return false;
        },
    };
    let ghost e0 = *entities;
    let mut i: usize = 0;
    while i < entities.len()
        invariant
            *entities == e0,
            e0 == *old(entities),
            leads(want, imp_pos, target_pos, path@),
            reachable(walkable_in(want), cell_of(imp_pos), cell_of(target_pos)),
            want == imp_walk_cells(*dungeon, include_marked),
            i <= entities@.len(),
            forall|j: int| 0 <= j < i ==> (#[trigger] entities@[j]).id != imp_id,
        decreases entities@.len() - i,
    {
        if entities[i].id == imp_id {
            proof {
                assert(entity_index(e0@, imp_id, i as int));
                assert forall|k: int| entity_index(e0@, imp_id, k) implies k == i by {
                    if k < i {
                        assert(e0@[k].id != imp_id);
                    }
                    if i < k {
                        assert(e0@[i as int].id != imp_id);
                    }
                }
            }
            if entities[i].is_creature() {
                let ghost before = entities@;
                match &mut entities[i].entity_type {
                    EntityType::Creature(c) => {
                        c.current_path = Some(path);
                    },
                    _ => {},
                }
                proof {
                    assert forall|j: int| 0 <= j < before.len() && j != i implies #[trigger] entities@[j] == before[j] by {}
                }
            }
            return true;
        }
        i = i + 1;
    }
    true
}

/// The entity is an imp.
pub open spec fn is_imp(e: Entity) -> bool {
    e.entity_type matches EntityType::Creature(c) && c.creature_id@ == "imp"@
}

/// The ids of the imps among `es`, in order.
pub open spec fn imps_of(es: Seq<Entity>) -> Seq<u64>
    decreases es.len(),
{
    if es.len() == 0 {
        Seq::empty()
    } else {
        imps_of(es.drop_last()) + if is_imp(es.last()) {
            seq![es.last().id]
        } else {
            Seq::empty()
        }
    }
}

/// The ids of the imps, in order.
pub fn imp_ids(state: &GameState) -> (r: Vec<u64>)
    ensures
        r@ == imps_of(state.entities@),
{
    let ghost es = state.entities@;
    let mut r: Vec<u64> = Vec::new();
    let mut i: usize = 0;
    while i < state.entities.len()
        invariant
            es == state.entities@,
            i <= es.len(),
            r@ == imps_of(es.take(i as int)),
        decreases es.len() - i,
    {
        assert(es.take(i + 1).drop_last() =~= es.take(i as int));
        let imp = match &state.entities[i].entity_type {
            EntityType::Creature(c) => str_eq(c.creature_id.as_str(), "imp"),
            _ => false,
        };
        if imp {
            r.push(state.entities[i].id);
        }
        assert(r@ =~= imps_of(es.take(i + 1)));
        i = i + 1;
    }
    assert(es.take(es.len() as int) =~= es);
    r
}

/// Remove a position from a list of distinct positions.
pub fn remove_tile(v: &mut Vec<TilePos>, p: TilePos)
    requires
        distinct_tiles(old(v)@),
    ensures
        distinct_tiles(final(v)@),
        forall|q: TilePos| #[trigger] final(v)@.contains(q) <==> (old(v)@.contains(q) && q != p),
{
    let mut i: usize = 0;
    while i < v.len()
        invariant
            i <= v@.len(),
            v@ == old(v)@,
            distinct_tiles(v@),
            forall|j: int| 0 <= j < i ==> v@[j] != p,
        decreases v@.len() - i,
    {
        if v[i] == p {
            let ghost before = v@;
            v.remove(i);
            proof {
                assert forall|a: int, b: int| 0 <= a < b < v@.len() implies v@[a] != v@[b] by {
                    let a0 = if a < i { a } else { a + 1 };
                    let b0 = if b < i { b } else { b + 1 };
                    assert(v@[a] == before[a0] && v@[b] == before[b0]);
                }
                assert forall|q: TilePos| #[trigger] v@.contains(q) <==> (before.contains(q) && q != p) by {
                    if v@.contains(q) {
                        let k = choose|k: int| 0 <= k < v@.len() && #[trigger] v@[k] == q;
                        let k0 = if k < i { k } else { k + 1 };
                        assert(before[k0] == q);
                        assert(k0 != i);
                    }
                    if before.contains(q) && q != p {
                        let k = choose|k: int| 0 <= k < before.len() && #[trigger] before[k] == q;
                        assert(k != i);
                        if k < i {
                            assert(v@[k] == q);
                        } else {
                            assert(v@[k - 1] == q);
                        }
                    }
                }
            }
            return;
        }
        i = i + 1;
    }
    assert forall|q: TilePos| #[trigger] v@.contains(q) <==> (v@.contains(q) && q != p) by {
        if v@.contains(q) {
            let k = choose|k: int| 0 <= k < v@.len() && #[trigger] v@[k] == q;
            assert(v@[k] != p);
        }
    }
}

/// Whether the player's counters can take one more dig.
fn fits_for_dig(p: &PlayerState) -> (r: bool)
    ensures
        r == dig_fits(*p),
{
    p.gold <= i32::MAX - 50 && p.mana <= i32::MAX - 20 && p.claimed_tile_count < u32::MAX
}

/// The record of one imp's round: the targeted tiles without its own tile,
/// the state after its idle step, the state after its path was set, its
/// action, whether a path was found, and the step it took.
pub type ImpRecord = (Seq<TilePos>, GameState, GameState, ImpAction, bool, Option<TilePos>);

/// One round of the imp with id `id`, from state `s` and targeted tiles `t`
/// to `s2` and `t2` (see `update_imp_digging`); `rec` records the steps
/// between.
pub open spec fn imp_round(
    s: GameState,
    t: Seq<TilePos>,
    s2: GameState,
    t2: Seq<TilePos>,
    rec: ImpRecord,
    id: u64,
    dt: int,
    walkable: Seq<String>,
) -> bool {
    let (t1, s_idle, s_path, act, found, step) = rec;
    if exists|i: int| entity_index(s.entities@, id, i) {
        let i = choose|i: int| entity_index(s.entities@, id, i);
        let pos = s.entities@[i].pos;
        let idle = s.entities@[i].entity_type matches EntityType::Creature(c) && c.current_path is None;
        &&& forall|q: TilePos| #[trigger] t1.contains(q) <==> (t.contains(q) && q != pos)
        &&& if idle && dig_fits(s.player) {
            &&& imp_stepped(s, s_idle, id, pos, t1, dt, walkable, act)
            &&& match act {
                ImpAction::PathTo { target, include_marked } => {
                    &&& path_assigned(
                        s_idle.dungeon,
                        s_idle.entities@,
                        s_path.entities@,
                        id,
                        pos,
                        target,
                        include_marked,
                        found,
                    )
                    &&& s_path == (GameState { entities: s_path.entities, ..s_idle })
                },
                _ => s_path == s_idle,
            }
        } else {
            s_idle == s && s_path == s && act == ImpAction::Idle
        }
        &&& forall|q: TilePos|
            #[trigger] t2.contains(q) <==> (t1.contains(q) || q == pos || exists|k: int|
                entity_index(s_path.entities@, id, k) && path_end(#[trigger] s_path.entities@[k]) == Some(q))
        &&& entity_walked(s_path.entities@, s2.entities@, id, dt, step)
        &&& s2 == (GameState { entities: s2.entities, ..s_path })
    } else {
        s2 == s && t2 == t
    }
}

/// Round `k` of the trace: imp `ids[k]` takes `(ts[k], tt[k])` to
/// `(ts[k + 1], tt[k + 1])`.
pub open spec fn round_at(
    ts: Seq<GameState>,
    tt: Seq<Seq<TilePos>>,
    recs: Seq<ImpRecord>,
    ids: Seq<u64>,
    k: int,
    dt: int,
    walkable: Seq<String>,
) -> bool {
    imp_round(ts[k], tt[k], ts[k + 1], tt[k + 1], recs[k], ids[k], dt, walkable)
}

/// The states `ts` and targeted tiles `tt` of one update of the imps from
/// `s0` to `s1`: the imps of `s0` take their rounds in order, starting from the
/// tiles that all of them target (see `collect_targeted_tiles`).
pub open spec fn imp_trace(
    ts: Seq<GameState>,
    tt: Seq<Seq<TilePos>>,
    recs: Seq<ImpRecord>,
    s0: GameState,
    s1: GameState,
    dt: int,
    walkable: Seq<String>,
) -> bool {
    let ids = imps_of(s0.entities@);
    &&& ts.len() == ids.len() + 1
    &&& tt.len() == ids.len() + 1
    &&& recs.len() == ids.len()
    &&& ts[0] == s0
    &&& ts.last() == s1
    &&& forall|p: TilePos|
        #[trigger] tt[0].contains(p) <==> exists|k: int|
            0 <= k < ids.len() && target_of_id(s0.entities@, #[trigger] ids[k], p)
    &&& forall|k: int| 0 <= k < ids.len() ==> #[trigger] round_at(ts, tt, recs, ids, k, dt, walkable)
}

/// One imp's round (see `imp_round`), with its record.
fn imp_round_step(
    state: &mut GameState,
    targeted: &mut Vec<TilePos>,
    id: u64,
    dt_ms: u64,
    walkable_types: &Vec<String>,
) -> (rec: Ghost<ImpRecord>)
    requires
        dungeon_wf(old(state).dungeon),
        distinct_tiles(old(targeted)@),
    ensures
        dungeon_wf(final(state).dungeon),
        distinct_tiles(final(targeted)@),
        imp_round(*old(state), old(targeted)@, *final(state), final(targeted)@, rec@, id, dt_ms as int, walkable_types@),
{
    let ghost s = *state;
    let ghost t = targeted@;
    let slot = find_entity_index(state, id);
    let i = match slot {
        None => {
            proof {
                assert(!exists|i: int| entity_index(s.entities@, id, i)) by {
                    if exists|i: int| entity_index(s.entities@, id, i) {
                        let i = choose|i: int| entity_index(s.entities@, id, i);
                        assert(s.entities@[i].id == id);
                    }
                }
            }
            return Ghost((t, s, s, ImpAction::Idle, false, None));
        },
        Some(i) => i,
    };
    proof {
        assert forall|j: int| entity_index(s.entities@, id, j) implies j == i by {
            if j < i {
                assert(s.entities@[j].id != id);
            }
            if i < j {
                assert(s.entities@[i as int].id != id);
            }
        }
    }
    let pos = state.entities[i].pos;
    let idle = match &state.entities[i].entity_type {
        EntityType::Creature(c) => c.current_path.is_none(),
        _ => false,
    };
    remove_tile(targeted, pos);
    let ghost t1 = targeted@;
    let ghost mut rec: ImpRecord = (t1, s, s, ImpAction::Idle, false, None);
    if idle && fits_for_dig(&state.player) {
        let act = process_idle_imp(state, id, pos, targeted, dt_ms, walkable_types);
        let ghost s_idle = *state;
        let mut found = false;
        match &act {
            ImpAction::PathTo { target, include_marked } => {
                found = pathfind_to_target(&state.dungeon, &mut state.entities, id, pos, *target, *include_marked);
                assert(s_idle == GameState { entities: s_idle.entities, ..*state });
            },
            _ => {},
        }
        proof {
            rec = (t1, s_idle, *state, act, found, None);
        }
    }
    let ghost s_path = *state;
    update_targeted_tiles(state, id, pos, targeted);
    let step = process_entity_movement(&mut state.entities, id, dt_ms);
    proof {
        rec = (rec.0, rec.1, rec.2, rec.3, rec.4, step);
        assert(s_path == GameState { entities: s_path.entities, ..*state });
    }
    Ghost(rec)
}

/// Update every imp for `dt_ms` milliseconds, one after another: the tiles
/// that all imps target are gathered first; each imp then gives up its own
/// tile, and, when it has no path (and the player's counters can take a dig),
/// takes its idle step (`process_idle_imp`) and gets the path it asks for
/// (`pathfind_to_target`); its tile and path end are targeted again, and it
/// walks (`process_entity_movement`). `walkable_types` are the tile types
/// imps wander onto.
pub fn update_imp_digging(state: &mut GameState, dt_ms: u64, walkable_types: &Vec<String>)
    requires
        dungeon_wf(old(state).dungeon),
    ensures
        exists|ts: Seq<GameState>, tt: Seq<Seq<TilePos>>, recs: Seq<ImpRecord>|
            #[trigger] imp_trace(ts, tt, recs, *old(state), *final(state), dt_ms as int, walkable_types@),
{
    let ghost s0 = *state;
    let ids = imp_ids(state);
    let mut targeted = collect_targeted_tiles(state, &ids);
    let ghost mut ts: Seq<GameState> = seq![*state];
    let ghost mut tt: Seq<Seq<TilePos>> = seq![targeted@];
    let ghost mut recs: Seq<ImpRecord> = Seq::empty();
    let mut k: usize = 0;
    while k < ids.len()
        invariant
            ids@ == imps_of(s0.entities@),
            dungeon_wf(state.dungeon),
            distinct_tiles(targeted@),
            k <= ids@.len(),
            ts.len() == k + 1,
            tt.len() == k + 1,
            recs.len() == k,
            ts[0] == s0,
            ts.last() == *state,
            tt.last() == targeted@,
            forall|p: TilePos|
                #[trigger] tt[0].contains(p) <==> exists|j: int|
                    0 <= j < ids@.len() && target_of_id(s0.entities@, #[trigger] ids@[j], p),
            forall|j: int| 0 <= j < k ==> #[trigger] round_at(ts, tt, recs, ids@, j, dt_ms as int, walkable_types@),
        decreases ids@.len() - k,
    {
        let ghost s = *state;
        let ghost t = targeted@;
        let rec = imp_round_step(state, &mut targeted, ids[k], dt_ms, walkable_types);
        proof {
            let ts0 = ts;
            let tt0 = tt;
            let recs0 = recs;
            ts = ts.push(*state);
            tt = tt.push(targeted@);
            recs = recs.push(rec@);
            assert(round_at(ts, tt, recs, ids@, k as int, dt_ms as int, walkable_types@));
            assert forall|j: int| 0 <= j < k + 1 implies #[trigger] round_at(ts, tt, recs, ids@, j, dt_ms as int, walkable_types@) by {
                if j < k {
                    assert(round_at(ts0, tt0, recs0, ids@, j, dt_ms as int, walkable_types@));
                    assert(ts[j] == ts0[j] && ts[j + 1] == ts0[j + 1]);
                    assert(tt[j] == tt0[j] && tt[j + 1] == tt0[j + 1]);
                    assert(recs[j] == recs0[j]);
                }
            }
        }
        k = k + 1;
    }
    assert(imp_trace(ts, tt, recs, s0, *state, dt_ms as int, walkable_types@));
}

} // verus!
