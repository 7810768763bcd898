//! Creature spawning: the player's spawner tiles and which creatures the
//! dungeon attracts, and the timed monster spawners placed on the map.
use vstd::prelude::*;
use crate::tiles::{TilePos, TileState, Ownership, str_eq, owned};
use crate::grid::{Grid, cells, grid_wf};
use crate::world::{Room, Dungeon, GameState, flat_tiles, lemma_flat_tiles_take, lemma_flat_tile_cell,
    dungeon_wf, first_heart_pos, player_heart_tile};
use crate::room_validator::{owned_cell, mask_member, opt_view, room_mask};
use crate::connectivity::{cell_of, open_in, open_cell, flags, flagged, flags_shape, lists_cell,
    flood_fill_region, new_flags};
use crate::paths::{reachable, closed_under_steps};
use crate::grid::{types, width, height, positioned};
use crate::random::random_index;
use crate::campaign::{holds_str, contains_str, strs};
use crate::hero_ai::has_room_of_type;

verus! {

/// The spawning of creatures at the player's spawner tiles.
pub struct SpawnSystem;

/// `t` is a monster spawner tile of the player.
pub open spec fn player_spawner(t: TileState) -> bool {
    t.tile_type@ == "monster_spawner"@ && t.ownership == Ownership::Player
}

/// The positions of the player's spawner tiles among `ts`, in order.
pub open spec fn spawner_positions(ts: Seq<TileState>) -> Seq<TilePos>
    decreases ts.len(),
{
    if ts.len() == 0 {
        Seq::empty()
    } else {
        spawner_positions(ts.drop_last()) + if player_spawner(ts.last()) {
            seq![ts.last().pos]
        } else {
            Seq::empty()
        }
    }
}

/// The creatures the dungeon attracts: goblins always, orcs and trolls once
/// it has a workshop, warlocks once it has a library; only those the game
/// knows.
pub open spec fn attracted(rooms: Seq<Room>, known: Seq<String>) -> Seq<Seq<char>> {
    let all = seq!["goblin"@] + (if has_room_of_type(rooms, "workshop"@) {
        seq!["orc"@, "troll"@]
    } else {
        Seq::empty()
    }) + (if has_room_of_type(rooms, "library"@) {
        seq!["warlock"@]
    } else {
        Seq::empty()
    });
    all.filter(|c: Seq<char>| holds_str(known, c))
}

/// Which creatures the dungeon attracts: exactly those the game knows among
/// goblins (always), orcs and trolls (once there is a workshop) and warlocks
/// (once there is a library).
pub proof fn attracted_creatures(rooms: Seq<Room>, known: Seq<String>, c: Seq<char>)
    ensures
        attracted(rooms, known).contains(c) <==> holds_str(known, c) && (c == "goblin"@ || ((c == "orc"@ || c == "troll"@)
            && has_room_of_type(rooms, "workshop"@)) || (c == "warlock"@ && has_room_of_type(rooms, "library"@))),
{
    let ws = has_room_of_type(rooms, "workshop"@);
    let lb = has_room_of_type(rooms, "library"@);
    let all = seq!["goblin"@] + (if ws {
        seq!["orc"@, "troll"@]
    } else {
        Seq::empty()
    }) + (if lb {
        seq!["warlock"@]
    } else {
        Seq::empty()
    });
    let pred = |x: Seq<char>| holds_str(known, x);
    reveal_strlit("goblin");
    reveal_strlit("orc");
    reveal_strlit("troll");
    reveal_strlit("warlock");
    assert("goblin"@.len() == 6 && "orc"@.len() == 3 && "troll"@.len() == 5 && "warlock"@.len() == 7);
    assert(attracted(rooms, known) == all.filter(pred));
    all.filter_lemma(pred);
    let listed = c == "goblin"@ || ((c == "orc"@ || c == "troll"@) && ws) || (c == "warlock"@ && lb);
    assert(all.contains(c) <==> listed) by {
        if all.contains(c) {
            let i = choose|i: int| 0 <= i < all.len() && all[i] == c;
            if ws && lb {
                assert(all =~= seq!["goblin"@, "orc"@, "troll"@, "warlock"@]);
            } else if ws {
                assert(all =~= seq!["goblin"@, "orc"@, "troll"@]);
            } else if lb {
                assert(all =~= seq!["goblin"@, "warlock"@]);
            } else {
                assert(all =~= seq!["goblin"@]);
            }
        }
        if listed {
            if c == "goblin"@ {
                assert(all[0] == c);
            } else if c == "orc"@ || c == "troll"@ {
                assert(ws);
                assert(all[1] == "orc"@ && all[2] == "troll"@);
            } else {
                if ws {
                    assert(all[3] == c);
                } else {
                    assert(all[1] == c);
                }
            }
        }
    }
    if attracted(rooms, known).contains(c) {
        all.lemma_filter_contains_rev(pred, c);
        let i = choose|i: int| 0 <= i < all.filter(pred).len() && all.filter(pred)[i] == c;
        assert(pred(all.filter(pred)[i]));
    }
    if holds_str(known, c) && listed {
        let i = choose|i: int| 0 <= i < all.len() && all[i] == c;
        assert(pred(all[i]));
    }
}

impl SpawnSystem {
    /// The positions of the player's monster spawner tiles, row after row.
    pub fn spawner_tiles(dungeon: &Dungeon) -> (r: Vec<TilePos>)
        ensures
            r@ == spawner_positions(flat_tiles(cells(&dungeon.grid))),
    {
        let ghost g = cells(&dungeon.grid);
        let mut found: Vec<TilePos> = Vec::new();
        let mut y: usize = 0;
        while y < dungeon.grid.len()
            invariant
                g == cells(&dungeon.grid),
                y <= g.len(),
                found@ == spawner_positions(flat_tiles(g.take(y as int))),
            decreases g.len() - y,
        {
            proof {
                lemma_flat_tiles_take(g, y as int);
            }
            let ghost prefix = flat_tiles(g.take(y as int));
            let mut x: usize = 0;
            while x < dungeon.grid[y].len()
                invariant
                    g == cells(&dungeon.grid),
                    y < g.len(),
                    x <= g[y as int].len(),
                    found@ == spawner_positions(prefix + g[y as int].take(x as int)),
                decreases g[y as int].len() - x,
            {
                assert((prefix + g[y as int].take(x + 1)).drop_last() =~= prefix + g[y as int].take(
                    x as int,
                ));
                let tile = &dungeon.grid[y][x];
                if str_eq(tile.tile_type.as_str(), "monster_spawner") && tile.ownership
                    == Ownership::Player {
                    found.push(tile.pos);
                }
                proof {
                    assert(found@ =~= spawner_positions(prefix + g[y as int].take(x + 1)));
                }
                x = x + 1;
            }
            assert(g[y as int].take(g[y as int].len() as int) =~= g[y as int]);
            y = y + 1;
        }
        assert(g.take(g.len() as int) =~= g);
        found
    }

    /// The creatures the dungeon can attract with the rooms it has, in the
    /// order goblin, orc, troll, warlock, keeping only known creatures.
    pub fn potential_creatures(rooms: &Vec<Room>, known_monsters: &Vec<String>) -> (r: Vec<String>)
        ensures
            strs(r@) == attracted(rooms@, known_monsters@),
    {
        let mut has_workshop = false;
        let mut has_library = false;
        let mut i: usize = 0;
        while i < rooms.len()
            invariant
                i <= rooms@.len(),
                has_workshop == exists|j: int| 0 <= j < i && (#[trigger] rooms@[j]).room_type@ == "workshop"@,
                has_library == exists|j: int| 0 <= j < i && (#[trigger] rooms@[j]).room_type@ == "library"@,
            decreases rooms@.len() - i,
        {
            if str_eq(rooms[i].room_type.as_str(), "workshop") {
                has_workshop = true;
            }
            if str_eq(rooms[i].room_type.as_str(), "library") {
                has_library = true;
            }
            i = i + 1;
        }
        let mut candidates: Vec<&str> = Vec::new();
        candidates.push("goblin");
        if has_workshop {
            candidates.push("orc");
            candidates.push("troll");
        }
        if has_library {
            candidates.push("warlock");
        }
        let ghost all = seq!["goblin"@] + (if has_workshop {
            seq!["orc"@, "troll"@]
        } else {
            Seq::empty()
        }) + (if has_library {
            seq!["warlock"@]
        } else {
            Seq::empty()
        });
        assert(candidates@.map_values(|c: &str| c@) =~= all);
        let mut r: Vec<String> = Vec::new();
        proof {
            reveal(Seq::filter);
            assert(all.take(0).filter(|c: Seq<char>| holds_str(known_monsters@, c)) =~= Seq::empty());
            assert(strs(r@) =~= Seq::empty());
        }
        let mut k: usize = 0;
        while k < candidates.len()
            invariant
                k <= candidates@.len(),
                candidates@.map_values(|c: &str| c@) == all,
                strs(r@) == all.take(k as int).filter(|c: Seq<char>| holds_str(known_monsters@, c)),
            decreases candidates@.len() - k,
        {
            let c = candidates[k];
            assert(all.take(k + 1).drop_last() =~= all.take(k as int));
            assert(all[k as int] == c@);
            if contains_str(known_monsters, c) {
                r.push(owned(c));
            }
            proof {
                reveal(Seq::filter);
                assert(all.take(k + 1).last() == c@);
            }
            assert(strs(r@) =~= all.take(k + 1).filter(|c: Seq<char>| holds_str(known_monsters@, c)));
            k = k + 1;
        }
        assert(all.take(all.len() as int) =~= all);
        r
    }
}

/// A monster spawner placed on the map: it spawns its monster every
/// interval (timers in milliseconds) until it has spawned its maximum.
#[derive(Debug)]
pub struct MonsterSpawner {
    pub pos: TilePos,
    pub monster_id: String,
    pub timer_ms: u64,
    pub spawn_interval_ms: u64,
    pub spawn_count: usize,
    pub max_spawns: usize,
}

impl MonsterSpawner {
    /// A fresh spawner that spawns once a minute.
    pub fn new(pos: TilePos, monster_id: String, max_spawns: usize) -> (s: Self)
        ensures
            s.pos == pos,
            s.monster_id@ == monster_id@,
            s.timer_ms == 0,
            s.spawn_interval_ms == 60_000,
            s.spawn_count == 0,
            s.max_spawns == max_spawns,
    {
        MonsterSpawner {
            pos,
            monster_id,
            timer_ms: 0,
            spawn_interval_ms: 60_000,
            spawn_count: 0,
            max_spawns,
        }
    }
}

/// The timed monster spawners.
pub struct SpawnerSystem;

/// The spawner's tile still holds a spawner (it has not been destroyed).
pub open spec fn spawner_standing(g: Seq<Seq<TileState>>, sp: MonsterSpawner) -> bool {
    g[sp.pos.y as int][sp.pos.x as int].tile_type@ == "monster_spawner"@
}

/// The spawner still counts time: it stands and has spawns left.
pub open spec fn spawner_ticking(g: Seq<Seq<TileState>>, sp: MonsterSpawner) -> bool {
    spawner_standing(g, sp) && sp.spawn_count < sp.max_spawns
}

/// The spawner's interval runs out during this update.
pub open spec fn spawner_fires(g: Seq<Seq<TileState>>, sp: MonsterSpawner, dt: u64) -> bool {
    spawner_ticking(g, sp) && sp.timer_ms + dt >= sp.spawn_interval_ms
}

/// The spawner fires and its monster is one the game knows: a monster spawns.
pub open spec fn spawner_spawns(g: Seq<Seq<TileState>>, known: Seq<String>, sp: MonsterSpawner, dt: u64) -> bool {
    spawner_fires(g, sp, dt) && holds_str(known, sp.monster_id@)
}

/// `sp2` is the spawner `sp` after an update of `dt` milliseconds.
pub open spec fn spawner_after(g: Seq<Seq<TileState>>, known: Seq<String>, sp: MonsterSpawner, dt: u64, sp2: MonsterSpawner) -> bool {
    &&& sp2.pos == sp.pos
    &&& sp2.monster_id@ == sp.monster_id@
    &&& sp2.spawn_interval_ms == sp.spawn_interval_ms
    &&& sp2.max_spawns == sp.max_spawns
    &&& sp2.timer_ms == if spawner_fires(g, sp, dt) {
        0
    } else if spawner_ticking(g, sp) {
        sp.timer_ms + dt
    } else {
        sp.timer_ms as int
    }
    &&& sp2.spawn_count == if spawner_spawns(g, known, sp, dt) {
        sp.spawn_count + 1
    } else {
        sp.spawn_count as int
    }
}

/// The indices of the spawners that still stand, in order.
pub open spec fn standing_indices(g: Seq<Seq<TileState>>, sps: Seq<MonsterSpawner>) -> Seq<int>
    decreases sps.len(),
{
    if sps.len() == 0 {
        Seq::empty()
    } else {
        standing_indices(g, sps.drop_last()) + if spawner_standing(g, sps.last()) {
            seq![sps.len() - 1]
        } else {
            Seq::empty()
        }
    }
}

/// The monsters to spawn, with where, in spawner order.
pub open spec fn spawn_requests(g: Seq<Seq<TileState>>, known: Seq<String>, sps: Seq<MonsterSpawner>, dt: u64) -> Seq<(TilePos, Seq<char>)>
    decreases sps.len(),
{
    if sps.len() == 0 {
        Seq::empty()
    } else {
        spawn_requests(g, known, sps.drop_last(), dt) + if spawner_spawns(g, known, sps.last(), dt) {
            seq![(sps.last().pos, sps.last().monster_id@)]
        } else {
            Seq::empty()
        }
    }
}

/// Every spawner stands on the grid, and its timer cannot overflow.
pub open spec fn spawners_fit(g: Seq<Seq<TileState>>, sps: Seq<MonsterSpawner>, dt: u64) -> bool {
    forall|i: int|
        0 <= i < sps.len() ==> {
            &&& 0 <= (#[trigger] sps[i]).pos.y < g.len()
            &&& 0 <= sps[i].pos.x < g[sps[i].pos.y as int].len()
            &&& sps[i].timer_ms + dt <= u64::MAX
        }
}

/// The view of a list of spawn requests.
pub open spec fn requests_view(v: Seq<(TilePos, String)>) -> Seq<(TilePos, Seq<char>)> {
    v.map_values(|r: (TilePos, String)| (r.0, r.1@))
}

/// Each kept spawner is the update of the standing spawner it comes from
/// among the first `n`.
pub open spec fn kept_ok(
    g: Seq<Seq<TileState>>,
    known: Seq<String>,
    sps: Seq<MonsterSpawner>,
    n: int,
    dt: u64,
    kept: Seq<MonsterSpawner>,
) -> bool {
    &&& kept.len() == standing_indices(g, sps.take(n)).len()
    &&& forall|k: int|
        0 <= k < kept.len() ==> 0 <= #[trigger] standing_indices(g, sps.take(n))[k] < n && spawner_after(
            g,
            known,
            sps[standing_indices(g, sps.take(n))[k]],
            dt,
            kept[k],
        )
}

impl SpawnerSystem {
    /// Advance every spawner by `dt_ms`: a standing spawner with spawns left
    /// counts time, and when its interval runs out it restarts and, if the
    /// game knows its monster, spawns one (returned as a spawn request).
    /// Destroyed spawners are dropped.
    pub fn update(
        spawners: &mut Vec<MonsterSpawner>,
        grid: &Grid,
        known_monsters: &Vec<String>,
        dt_ms: u64,
    ) -> (requests: Vec<(TilePos, String)>)
        requires
            spawners_fit(cells(grid), old(spawners)@, dt_ms),
        ensures
            requests_view(requests@) == spawn_requests(cells(grid), known_monsters@, old(spawners)@, dt_ms),
            final(spawners)@.len() == standing_indices(cells(grid), old(spawners)@).len(),
            forall|k: int|
                0 <= k < final(spawners)@.len() ==> spawner_after(
                    cells(grid),
                    known_monsters@,
                    old(spawners)@[standing_indices(cells(grid), old(spawners)@)[k]],
                    dt_ms,
                    #[trigger] final(spawners)@[k],
                ),
    {
        let ghost g = cells(grid);
        let ghost sps = spawners@;
        let mut kept: Vec<MonsterSpawner> = Vec::new();
        let mut requests: Vec<(TilePos, String)> = Vec::new();
        let mut i: usize = 0;
        while i < spawners.len()
            invariant
                g == cells(grid),
                sps == spawners@,
                spawners_fit(g, sps, dt_ms),
                i <= sps.len(),
                requests_view(requests@) == spawn_requests(g, known_monsters@, sps.take(i as int), dt_ms),
                kept_ok(g, known_monsters@, sps, i as int, dt_ms, kept@),
            decreases sps.len() - i,
        {
            assert(sps.take(i + 1).drop_last() =~= sps.take(i as int));
            let sp = &spawners[i];
            assert(0 <= sps[i as int].pos.y < g.len());
            let y = sp.pos.y as usize;
            let x = sp.pos.x as usize;
            let standing = str_eq(grid[y][x].tile_type.as_str(), "monster_spawner");
            let mut timer = sp.timer_ms;
            let mut count = sp.spawn_count;
            let mut fired = false;
            if standing && count < sp.max_spawns {
                let t = timer + dt_ms;
                if t >= sp.spawn_interval_ms {
                    timer = 0;
                    fired = true;
                } else {
                    timer = t;
                }
            }
            assert(g[y as int] == grid@[y as int]@);
            assert(standing == spawner_standing(g, sps[i as int]));
            assert(fired == spawner_fires(g, sps[i as int], dt_ms));
            let ghost before = requests@;
            if fired && contains_str(known_monsters, sp.monster_id.as_str()) {
                count = count + 1;
                requests.push((sp.pos, sp.monster_id.clone()));
            }
            proof {
                assert(requests_view(requests@) =~= spawn_requests(g, known_monsters@, sps.take(i + 1), dt_ms));
            }
            let ghost kept_before = kept@;
            if standing {
                kept.push(
                    MonsterSpawner {
                        pos: sp.pos,
                        monster_id: sp.monster_id.clone(),
                        timer_ms: timer,
                        spawn_interval_ms: sp.spawn_interval_ms,
                        spawn_count: count,
                        max_spawns: sp.max_spawns,
                    },
                );
            }
            proof {
                let si = standing_indices(g, sps.take(i + 1));
                let si0 = standing_indices(g, sps.take(i as int));
                assert(si =~= si0 + if spawner_standing(g, sps[i as int]) {
                    seq![i as int]
                } else {
                    Seq::empty()
                });
                assert(kept@.len() == si.len());
                assert forall|k: int| 0 <= k < kept@.len() implies 0 <= #[trigger] si[k] < i + 1 && spawner_after(g, known_monsters@, sps[si[k]], dt_ms, kept@[k]) by {
                    if k < kept_before.len() {
                        assert(kept@[k] == kept_before[k]);
                        assert(si[k] == si0[k]);
                    } else {
                        assert(si[k] == i);
                        assert(spawner_after(g, known_monsters@, sps[i as int], dt_ms, kept@[k]));
                    }
                }
                assert(kept_ok(g, known_monsters@, sps, i + 1, dt_ms, kept@));
            }
            i = i + 1;
        }
        assert(sps.take(sps.len() as int) =~= sps);
        *spawners = kept;
        requests
    }
}

/// A spawner never spawns more than its maximum: if its count is within the
/// maximum before an update, it still is after.
pub proof fn spawn_count_stays_bounded(
    g: Seq<Seq<TileState>>,
    known: Seq<String>,
    sp: MonsterSpawner,
    dt: u64,
    sp2: MonsterSpawner,
)
    requires
        sp.spawn_count <= sp.max_spawns,
        spawner_after(g, known, sp, dt, sp2),
    ensures
        sp2.spawn_count <= sp2.max_spawns,
{
}

/// The player-owned tiles, as a region of the plane.
pub open spec fn owned_in(c: Seq<Seq<TileState>>) -> spec_fn((int, int)) -> bool {
    |p: (int, int)| owned_cell(c, p)
}

/// The cells that can be reached from the heart at `heart` over player-owned
/// tiles.
pub open spec fn heart_region(c: Seq<Seq<TileState>>, heart: TilePos) -> spec_fn((int, int)) -> bool {
    |p: (int, int)| reachable(owned_in(c), cell_of(heart), p)
}

/// The positions of the player's spawner tiles among `ts` that lie in
/// `region`, in order.
pub open spec fn spawners_in(ts: Seq<TileState>, region: spec_fn((int, int)) -> bool) -> Seq<TilePos>
    decreases ts.len(),
{
    if ts.len() == 0 {
        Seq::empty()
    } else {
        spawners_in(ts.drop_last(), region) + if player_spawner(ts.last()) && region(cell_of(ts.last().pos)) {
            seq![ts.last().pos]
        } else {
            Seq::empty()
        }
    }
}

/// The first player heart of a well-formed dungeon stands on a player-owned
/// tile at its own position.
pub proof fn lemma_heart_owned(d: Dungeon, ts: Seq<TileState>)
    requires
        dungeon_wf(d),
        ts == flat_tiles(cells(&d.grid)),
        first_heart_pos(ts) is Some,
    ensures
        owned_cell(cells(&d.grid), cell_of(first_heart_pos(ts)->0)),
    decreases ts.len(),
{
    let g = cells(&d.grid);
    let k = lemma_first_heart_index(ts);
    lemma_flat_tile_cell(g, k);
    let (y, x) = choose|y: int, x: int| 0 <= y < g.len() && 0 <= x < g[y].len() && flat_tiles(g)[k] == g[y][x];
    assert(g[y].len() == g[0].len());
    assert(g[y][x].pos == (TilePos { x: x as i32, y: y as i32 }));
}

/// The first heart position is that of a player heart tile among `ts`.
proof fn lemma_first_heart_index(ts: Seq<TileState>) -> (k: int)
    requires
        first_heart_pos(ts) is Some,
    ensures
        0 <= k < ts.len(),
        ts[k].pos == first_heart_pos(ts)->0,
        player_heart_tile(ts[k]),
    decreases ts.len(),
{
    if first_heart_pos(ts.drop_last()) is Some {
        lemma_first_heart_index(ts.drop_last())
    } else {
        ts.len() - 1
    }
}

impl SpawnSystem {
    /// The positions of the player's spawner tiles, row after row, that the
    /// heart at `heart` reaches over player-owned tiles (4-way steps).
    pub fn connected_spawners(dungeon: &Dungeon, heart: TilePos) -> (r: Vec<TilePos>)
        requires
            dungeon_wf(*dungeon),
            owned_cell(cells(&dungeon.grid), cell_of(heart)),
        ensures
            r@ == spawners_in(flat_tiles(cells(&dungeon.grid)), heart_region(cells(&dungeon.grid), heart)),
    {
        let ghost g = cells(&dungeon.grid);
        let mask = room_mask(&dungeon.grid, None);
        let ghost t = types(cells(&mask));
        proof {
            assert(open_in(t) =~= owned_in(g)) by {
                assert forall|p: (int, int)| #[trigger] open_in(t)(p) == owned_in(g)(p) by {
                    assert(open_cell(t, p) == mask_member(g, opt_view(None), p));
                }
            }
            assert(g[0].len() == dungeon.width);
        }
        let mut visited = new_flags(dungeon.width, dungeon.height);
        proof {
            assert(closed_under_steps(open_in(t), flagged(flags(&visited))));
            assert(open_cell(t, cell_of(heart)) == mask_member(g, opt_view(None), cell_of(heart)));
        }
        let region = flood_fill_region(&mask, heart.x as usize, heart.y as usize, &mut visited);
        let ghost vv = flags(&visited);
        proof {
            assert forall|c: (int, int)| #[trigger] flagged(vv)(c) == (owned_cell(g, c) && heart_region(g, heart)(c)) by {
                assert(open_cell(t, c) == mask_member(g, opt_view(None), c));
                if flagged(vv)(c) {
                    assert(lists_cell(region@, c));
                    let i = choose|i: int| 0 <= i < region@.len() && cell_of(region@[i]) == c;
                    assert(reachable(open_in(t), cell_of(heart), cell_of(region@[i])));
                }
            }
        }
        let mut found: Vec<TilePos> = Vec::new();
        let mut y: usize = 0;
        while y < dungeon.grid.len()
            invariant
                dungeon_wf(*dungeon),
                g == cells(&dungeon.grid),
                vv == flags(&visited),
                flags_shape(vv, width(g), height(g)),
                forall|c: (int, int)| #[trigger] flagged(vv)(c) == (owned_cell(g, c) && heart_region(g, heart)(c)),
                y <= g.len(),
                found@ == spawners_in(flat_tiles(g.take(y as int)), heart_region(g, heart)),
            decreases g.len() - y,
        {
            proof {
                lemma_flat_tiles_take(g, y as int);
            }
            let ghost prefix = flat_tiles(g.take(y as int));
            let mut x: usize = 0;
            while x < dungeon.grid[y].len()
                invariant
                    dungeon_wf(*dungeon),
                    g == cells(&dungeon.grid),
                    vv == flags(&visited),
                    flags_shape(vv, width(g), height(g)),
                    forall|c: (int, int)| #[trigger] flagged(vv)(c) == (owned_cell(g, c) && heart_region(g, heart)(c)),
                    y < g.len(),
                    x <= g[y as int].len(),
                    found@ == spawners_in(prefix + g[y as int].take(x as int), heart_region(g, heart)),
                decreases g[y as int].len() - x,
            {
                assert((prefix + g[y as int].take(x + 1)).drop_last() =~= prefix + g[y as int].take(
                    x as int,
                ));
                let tile = &dungeon.grid[y][x];
                proof {
                    assert(g[y as int].len() == g[0].len());
                    assert(g[y as int][x as int].pos == (TilePos { x: x as i32, y: y as i32 }));
                    assert(vv[y as int].len() == width(g));
                    assert(flagged(vv)((x as int, y as int)) == visited@[y as int]@[x as int]);
                }
                if str_eq(tile.tile_type.as_str(), "monster_spawner") && tile.ownership == Ownership::Player
                    && visited[y][x] {
                    found.push(tile.pos);
                }
                proof {
                    assert(found@ =~= spawners_in(prefix + g[y as int].take(x + 1), heart_region(g, heart)));
                }
                x = x + 1;
            }
            assert(g[y as int].take(g[y as int].len() as int) =~= g[y as int]);
            y = y + 1;
        }
        assert(g.take(g.len() as int) =~= g);
        found
    }

    /// Choose where a new creature appears and which: a spawner tile that
    /// reaches the player's heart over player-owned tiles, and a creature the
    /// dungeon attracts (`attracted`), each drawn at random. Nothing spawns
    /// without a heart, a connected spawner, a free lair tile
    /// (`available_lair_tiles`) or an attracted creature.
    pub fn spawn_random_creature(
        state: &GameState,
        known_monsters: &Vec<String>,
        available_lair_tiles: usize,
    ) -> (r: Option<(TilePos, String)>)
        requires
            dungeon_wf(state.dungeon),
        ensures
            ({
                let g = cells(&state.dungeon.grid);
                let heart = first_heart_pos(flat_tiles(g));
                let sp = spawners_in(flat_tiles(g), heart_region(g, heart->0));
                let cs = attracted(state.rooms@, known_monsters@);
                &&& (r is None) == (heart is None || sp.len() == 0 || available_lair_tiles == 0 || cs.len() == 0)
                &&& r matches Some((p, c)) ==> sp.contains(p) && cs.contains(c@)
            }),
    {
        let ghost g = cells(&state.dungeon.grid);
        let heart = match state.find_dungeon_heart_position() {
            Some(h) => h,
            None => {
                return None;
            },
        };
        proof {
            lemma_heart_owned(state.dungeon, flat_tiles(g));
        }
        let spawners = Self::connected_spawners(&state.dungeon, heart);
        if spawners.len() == 0 || available_lair_tiles == 0 {
            return None;
        }
        let i = random_index(spawners.len());
        let spawn_pos = spawners[i];
        let creatures = Self::potential_creatures(&state.rooms, known_monsters);
        proof {
            assert(strs(creatures@).len() == creatures@.len());
        }
        if creatures.len() == 0 {
            return None;
        }
        let j = random_index(creatures.len());
        let creature = creatures[j].clone();
        proof {
            assert(strs(creatures@)[j as int] == creatures@[j as int]@);
            assert(spawners@[i as int] == spawn_pos);
        }
        Some((spawn_pos, creature))
    }
}

} // verus!
