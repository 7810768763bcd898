//! Heroes that fall in the dungeon: taken to the player's prison, where they
//! rot into skeletons, or are turned to the player's side in a staffed
//! torture chamber.
use vstd::prelude::*;
use crate::tiles::{TilePos, str_eq, owned};
use crate::world::{GameState, Entity, EntityType, HeroState, Room, Notice, NoticeLevel, Task};
use crate::hero_ai::HeroGoal;
use crate::campaign::{holds_str, contains_str};
use crate::random::random_index;

verus! {

/// The health a captured hero is revived to.
pub const CAPTURED_HEALTH: i32 = 10;

/// A fallen hero that is neither captured nor turned yet.
pub open spec fn capturable(e: Entity) -> bool {
    &&& e.health <= 0
    &&& e.entity_type matches EntityType::Hero(h) && !h.is_captured && !h.is_converted
}

/// The tiles of the player's prisons, room after room.
pub open spec fn prison_tiles(rooms: Seq<Room>) -> Seq<TilePos>
    decreases rooms.len(),
{
    if rooms.len() == 0 {
        Seq::empty()
    } else {
        prison_tiles(rooms.drop_last()) + if rooms.last().room_type@ == "prison"@ {
            rooms.last().tiles@
        } else {
            Seq::empty()
        }
    }
}

/// How many of the entities are fallen heroes to capture.
pub open spec fn count_capturable(es: Seq<Entity>) -> nat
    decreases es.len(),
{
    if es.len() == 0 {
        0
    } else {
        count_capturable(es.drop_last()) + if capturable(es.last()) { 1nat } else { 0nat }
    }
}

/// `e1` is the fallen hero `e0` taken to the prison tile `pos`: captured, its
/// turning started over, revived to `CAPTURED_HEALTH`.
pub open spec fn captured_at(e0: Entity, e1: Entity, pos: TilePos) -> bool {
    match (e0.entity_type, e1.entity_type) {
        (EntityType::Hero(h0), EntityType::Hero(h1)) => {
            &&& h1 == (HeroState { is_captured: true, conversion_progress_permille: 0, ..h0 })
            &&& e1 == (Entity { pos, health: CAPTURED_HEALTH, entity_type: e1.entity_type, ..e0 })
        },
        _ => false,
    }
}

/// The notices `ns` are `n` success notices with the message `m`.
pub open spec fn notices_of(ns: Seq<Notice>, n: int, m: Seq<char>) -> bool {
    &&& ns.len() == n
    &&& forall|k: int| 0 <= k < n ==> (#[trigger] ns[k]).level == NoticeLevel::Success && ns[k].message@ == m
}

/// Take every fallen hero to a tile of the player's prisons, drawn at random,
/// with a notice for each. With no fallen hero or no prison nothing happens.
pub fn handle_prison_captures(state: &mut GameState)
    ensures
        ({
            let pt = prison_tiles(old(state).rooms@);
            let es0 = old(state).entities@;
            let es1 = final(state).entities@;
            &&& *final(state) == (GameState {
                entities: final(state).entities,
                notifications: final(state).notifications,
                ..*old(state)
            })
            &&& if pt.len() == 0 || count_capturable(es0) == 0 {
                es1 == es0 && final(state).notifications@ == old(state).notifications@
            } else {
                &&& es1.len() == es0.len()
                &&& forall|j: int|
                    0 <= j < es0.len() ==> if capturable(es0[j]) {
                        captured_at(es0[j], #[trigger] es1[j], es1[j].pos) && pt.contains(es1[j].pos)
                    } else {
                        es1[j] == es0[j]
                    }
                &&& final(state).notifications@.take(old(state).notifications@.len() as int)
                    == old(state).notifications@
                &&& notices_of(
                    final(state).notifications@.skip(old(state).notifications@.len() as int),
                    count_capturable(es0) as int,
                    "Hero captured!"@,
                )
            }
        }),
{
    let ghost s0 = *state;
    let mut tiles: Vec<TilePos> = Vec::new();
    let mut r: usize = 0;
    while r < state.rooms.len()
        invariant
            *state == s0,
            r <= s0.rooms@.len(),
            tiles@ == prison_tiles(s0.rooms@.take(r as int)),
        decreases s0.rooms@.len() - r,
    {
        assert(s0.rooms@.take(r + 1).drop_last() =~= s0.rooms@.take(r as int));
        if str_eq(state.rooms[r].room_type.as_str(), "prison") {
            let mut k: usize = 0;
            let ghost before = tiles@;
            while k < state.rooms[r].tiles.len()
                invariant
                    *state == s0,
                    r < s0.rooms@.len(),
                    k <= s0.rooms@[r as int].tiles@.len(),
                    tiles@ == before + s0.rooms@[r as int].tiles@.take(k as int),
                decreases s0.rooms@[r as int].tiles@.len() - k,
            {
                tiles.push(state.rooms[r].tiles[k]);
                assert(s0.rooms@[r as int].tiles@.take(k + 1) =~= s0.rooms@[r as int].tiles@.take(k as int).push(
                    s0.rooms@[r as int].tiles@[k as int],
                ));
                k = k + 1;
            }
            assert(s0.rooms@[r as int].tiles@.take(k as int) =~= s0.rooms@[r as int].tiles@);
        }
        assert(tiles@ =~= prison_tiles(s0.rooms@.take(r + 1)));
        r = r + 1;
    }
    assert(s0.rooms@.take(s0.rooms@.len() as int) =~= s0.rooms@);
    if tiles.len() == 0 {
        return;
    }
    let ghost es0 = s0.entities@;
    let ghost ns0 = s0.notifications@;
    let mut i: usize = 0;
    while i < state.entities.len()
        invariant
            tiles@ == prison_tiles(s0.rooms@),
            0 < tiles@.len(),
            es0 == s0.entities@,
            ns0 == s0.notifications@,
            *state == (GameState { entities: state.entities, notifications: state.notifications, ..s0 }),
            state.entities@.len() == es0.len(),
            i <= es0.len(),
            forall|j: int|
                0 <= j < i ==> if capturable(es0[j]) {
                    captured_at(es0[j], #[trigger] state.entities@[j], state.entities@[j].pos) && tiles@.contains(
                        state.entities@[j].pos,
                    )
                } else {
                    state.entities@[j] == es0[j]
                },
            forall|j: int| i <= j < es0.len() ==> #[trigger] state.entities@[j] == es0[j],
            state.notifications@.len() == ns0.len() + count_capturable(es0.take(i as int)),
            state.notifications@.take(ns0.len() as int) == ns0,
            notices_of(state.notifications@.skip(ns0.len() as int), count_capturable(es0.take(i as int)) as int, "Hero captured!"@),
        decreases es0.len() - i,
    {
        assert(es0.take(i + 1).drop_last() =~= es0.take(i as int));
        let fallen = state.entities[i].health <= 0 && match &state.entities[i].entity_type {
            EntityType::Hero(h) => !h.is_captured && !h.is_converted,
            _ => false,
        };
        if fallen {
            let pick = random_index(tiles.len());
            let pos = tiles[pick];
            let ghost before = state.entities@;
            state.entities[i].pos = pos;
            state.entities[i].health = CAPTURED_HEALTH;
            match &mut state.entities[i].entity_type {
                EntityType::Hero(h) => {
                    h.is_captured = true;
                    h.conversion_progress_permille = 0;
                },
                _ => {},
            }
            let ghost nb = state.notifications@;
            state.notifications.push(Notice { level: NoticeLevel::Success, message: owned("Hero captured!") });
            proof {
                assert(tiles@[pick as int] == pos);
                assert forall|j: int| 0 <= j < es0.len() && j != i implies #[trigger] state.entities@[j] == before[j] by {}
                assert(state.notifications@.take(ns0.len() as int) =~= nb.take(ns0.len() as int));
                let old_new = nb.skip(ns0.len() as int);
                assert(state.notifications@.skip(ns0.len() as int) =~= old_new.push(state.notifications@.last()));
            }
        }
        proof {
            assert(count_capturable(es0.take(i + 1)) == count_capturable(es0.take(i as int)) + if capturable(es0[i as int]) { 1nat } else { 0nat });
        }
        i = i + 1;
    }
    assert(es0.take(es0.len() as int) =~= es0);
    proof {
        if count_capturable(es0) == 0 {
            assert forall|j: int| 0 <= j < es0.len() implies !capturable(es0[j]) by {
                if capturable(es0[j]) {
                    lemma_capturable_counted(es0, j);
                }
            }
            assert(state.entities@ =~= es0);
            assert(state.notifications@ =~= state.notifications@.take(ns0.len() as int));
        }
    }
}

/// A fallen hero among the entities is counted.
proof fn lemma_capturable_counted(es: Seq<Entity>, j: int)
    requires
        0 <= j < es.len(),
        capturable(es[j]),
    ensures
        count_capturable(es) > 0,
    decreases es.len(),
{
    if j < es.len() - 1 {
        lemma_capturable_counted(es.drop_last(), j);
    }
}

/// A succubus at work in the room with id `room_id`.
pub open spec fn tormentor_in(e: Entity, room_id: usize) -> bool {
    e.entity_type matches EntityType::Creature(c) && c.creature_id@ == "succubus"@ && (c.current_task matches Some(
        Task::Work(r, _),
    ) && r == room_id)
}

/// Some succubus works in the room with id `room_id`.
pub open spec fn torture_active(es: Seq<Entity>, room_id: usize) -> bool {
    exists|k: int| 0 <= k < es.len() && tormentor_in(#[trigger] es[k], room_id)
}

/// The index of the first room that holds the tile `pos`.
pub open spec fn room_holding(rooms: Seq<Room>, pos: TilePos) -> Option<int>
    decreases rooms.len(),
{
    if rooms.len() == 0 {
        None
    } else {
        match room_holding(rooms.drop_last(), pos) {
            Some(k) => Some(k),
            None => if rooms.last().tiles@.contains(pos) {
                Some(rooms.len() - 1)
            } else {
                None
            },
        }
    }
}

/// How the room of a captive hero holds it: `Some(false)` a prison,
/// `Some(true)` a torture chamber where a succubus works; `None` for anything
/// else.
pub open spec fn held_by(rooms: Seq<Room>, es: Seq<Entity>, e: Entity) -> Option<bool> {
    if e.entity_type matches EntityType::Hero(h) && h.is_captured && !h.is_converted {
        match room_holding(rooms, e.pos) {
            Some(k) => if rooms[k].room_type@ == "prison"@ {
                Some(false)
            } else if rooms[k].room_type@ == "torture_chamber"@ && torture_active(es, rooms[k].id) {
                Some(true)
            } else {
                None
            },
            None => None,
        }
    } else {
        None
    }
}

/// The turning of a captive after `dt` milliseconds at `rate` thousandths per
/// second (at most `u32::MAX`).
pub open spec fn progress_after(p: u32, rate: u32, dt: u64) -> int {
    let q = p + rate * dt / 1000;
    if q > u32::MAX {
        u32::MAX as int
    } else {
        q
    }
}

/// What becomes of entity `e` held as `held` (see `held_by`): a captive's
/// turning advances (prisons at `skeleton_rate`, torture chambers at
/// `torture_rate`); once it is complete a tortured hero joins the player,
/// healed and resting where it stands, while a prisoner rots away (`None`).
pub open spec fn after_prison(e: Entity, held: Option<bool>, skeleton_rate: u32, torture_rate: u32, dt: u64) -> Option<
    Entity,
> {
    match (held, e.entity_type) {
        (Some(torture), EntityType::Hero(h)) => {
            let p = progress_after(h.conversion_progress_permille, if torture { torture_rate } else { skeleton_rate }, dt);
            if p < 1000 {
                Some(Entity { entity_type: EntityType::Hero(HeroState { conversion_progress_permille: p as u32, ..h }), ..e })
            } else if torture {
                Some(
                    Entity {
                        health: h.max_health,
                        entity_type: EntityType::Hero(
                            HeroState {
                                conversion_progress_permille: p as u32,
                                is_converted: true,
                                is_captured: false,
                                current_goal: HeroGoal::RestAtSpawn(e.pos),
                                ..h
                            },
                        ),
                        ..e
                    },
                )
            } else {
                None
            }
        },
        _ => Some(e),
    }
}

/// Entity `e` is turned to the player's side by this pass.
pub open spec fn turned(e: Entity, held: Option<bool>, skeleton_rate: u32, torture_rate: u32, dt: u64) -> bool {
    &&& held == Some(true)
    &&& after_prison(e, held, skeleton_rate, torture_rate, dt) matches Some(e1)
    &&& (e1.entity_type matches EntityType::Hero(h1) && h1.is_converted)
}

/// The entities `es` (of all the entities `all`) after one pass of the
/// prisons, in order, without those that rotted away.
pub open spec fn prison_pass(
    es: Seq<Entity>,
    all: Seq<Entity>,
    rooms: Seq<Room>,
    skeleton_rate: u32,
    torture_rate: u32,
    dt: u64,
) -> Seq<Entity>
    decreases es.len(),
{
    if es.len() == 0 {
        Seq::empty()
    } else {
        prison_pass(es.drop_last(), all, rooms, skeleton_rate, torture_rate, dt) + match after_prison(
            es.last(),
            held_by(rooms, all, es.last()),
            skeleton_rate,
            torture_rate,
            dt,
        ) {
            Some(e1) => seq![e1],
            None => Seq::empty(),
        }
    }
}

/// What a pass of the prisons tells the player about `es`, in order: each
/// turned hero joins the player; each rotted prisoner, when the game knows
/// skeletons, becomes a skeleton (positions in `rot_spots`).
pub open spec fn prison_news(
    es: Seq<Entity>,
    all: Seq<Entity>,
    rooms: Seq<Room>,
    skeleton_rate: u32,
    torture_rate: u32,
    dt: u64,
    skeletons: bool,
) -> Seq<Seq<char>>
    decreases es.len(),
{
    if es.len() == 0 {
        Seq::empty()
    } else {
        let e = es.last();
        let held = held_by(rooms, all, e);
        prison_news(es.drop_last(), all, rooms, skeleton_rate, torture_rate, dt, skeletons) + if turned(
            e,
            held,
            skeleton_rate,
            torture_rate,
            dt,
        ) {
            seq![(e.entity_type->Hero_0).hero_id@ + " converted to your side!"@]
        } else if after_prison(e, held, skeleton_rate, torture_rate, dt) is None && skeletons {
            seq!["Captured hero rotted into a Skeleton!"@]
        } else {
            Seq::empty()
        }
    }
}

/// Where prisoners among `es` rotted away, in order.
pub open spec fn rot_spots(
    es: Seq<Entity>,
    all: Seq<Entity>,
    rooms: Seq<Room>,
    skeleton_rate: u32,
    torture_rate: u32,
    dt: u64,
) -> Seq<TilePos>
    decreases es.len(),
{
    if es.len() == 0 {
        Seq::empty()
    } else {
        rot_spots(es.drop_last(), all, rooms, skeleton_rate, torture_rate, dt) + if after_prison(
            es.last(),
            held_by(rooms, all, es.last()),
            skeleton_rate,
            torture_rate,
            dt,
        ) is None {
            seq![es.last().pos]
        } else {
            Seq::empty()
        }
    }
}

/// Whether the list holds the id.
fn contains_id(v: &Vec<usize>, id: usize) -> (r: bool)
    ensures
        r == v@.contains(id),
{
    let mut k: usize = 0;
    while k < v.len()
        invariant
            k <= v@.len(),
            forall|j: int| 0 <= j < k ==> v@[j] != id,
        decreases v@.len() - k,
    {
        if v[k] == id {
            return true;
        }
        k = k + 1;
    }
    false
}

/// The ids of the rooms where a succubus works.
fn torture_rooms(es: &Vec<Entity>) -> (r: Vec<usize>)
    ensures
        forall|id: usize| #[trigger] r@.contains(id) <==> torture_active(es@, id),
{
    let mut r: Vec<usize> = Vec::new();
    let mut k: usize = 0;
    while k < es.len()
        invariant
            k <= es@.len(),
            forall|id: usize| #[trigger] r@.contains(id) <==> exists|j: int| 0 <= j < k && tormentor_in(#[trigger] es@[j], id),
        decreases es@.len() - k,
    {
        let ghost before = r@;
        match &es[k].entity_type {
            EntityType::Creature(c) => {
                if str_eq(c.creature_id.as_str(), "succubus") {
                    match c.current_task {
                        Some(Task::Work(room_id, _)) => {
                            r.push(room_id);
                        },
                        _ => {},
                    }
                }
            },
            _ => {},
        }
        proof {
            assert forall|id: usize| #[trigger] r@.contains(id) <==> exists|j: int| 0 <= j < k + 1 && tormentor_in(#[trigger] es@[j], id) by {
                if r@.contains(id) {
                    let m = choose|m: int| 0 <= m < r@.len() && r@[m] == id;
                    if m < before.len() {
                        assert(before[m] == id);
                        assert(before.contains(id));
                    } else {
                        assert(tormentor_in(es@[k as int], id));
                    }
                }
                if exists|j: int| 0 <= j < k + 1 && tormentor_in(#[trigger] es@[j], id) {
                    let j = choose|j: int| 0 <= j < k + 1 && tormentor_in(#[trigger] es@[j], id);
                    if j < k {
                        assert(before.contains(id));
                        let m = choose|m: int| 0 <= m < before.len() && before[m] == id;
                        assert(r@[m] == id);
                    } else {
                        assert(r@[r@.len() - 1] == id);
                    }
                }
            }
        }
        k = k + 1;
    }
    r
}

/// The index of the first room that holds `pos` (see `room_holding`).
fn find_room_holding(rooms: &Vec<Room>, pos: TilePos) -> (r: Option<usize>)
    ensures
        match r {
            Some(k) => k < rooms@.len() && room_holding(rooms@, pos) == Some(k as int),
            None => room_holding(rooms@, pos) is None,
        },
{
    let mut k: usize = 0;
    while k < rooms.len()
        invariant
            k <= rooms@.len(),
            room_holding(rooms@.take(k as int), pos) is None,
        decreases rooms@.len() - k,
    {
        assert(rooms@.take(k + 1).drop_last() =~= rooms@.take(k as int));
        if crate::imp_ai::contains_tile(&rooms[k].tiles, pos) {
            proof {
                lemma_room_holding_prefix(rooms@, k as int + 1, pos);
            }
            return Some(k);
        }
        k = k + 1;
    }
    assert(rooms@.take(rooms@.len() as int) =~= rooms@);
    None
}

/// A room found among the first rooms is the one found among all of them.
proof fn lemma_room_holding_prefix(rooms: Seq<Room>, n: int, pos: TilePos)
    requires
        0 <= n <= rooms.len(),
        room_holding(rooms.take(n), pos) is Some,
    ensures
        room_holding(rooms, pos) == room_holding(rooms.take(n), pos),
    decreases rooms.len(),
{
    if n < rooms.len() {
        assert(rooms.drop_last().take(n) =~= rooms.take(n));
        lemma_room_holding_prefix(rooms.drop_last(), n, pos);
    } else {
        assert(rooms.take(n) =~= rooms);
    }
}

/// Advance the turning of every captive hero by `dt_ms` milliseconds (see
/// `after_prison`; rates in thousandths per second): heroes turned in a
/// torture chamber join the player and rotted prisoners leave, with a notice
/// each (for the rotted only when `known_monsters` holds skeletons). Returns
/// where a skeleton should rise for each rotted prisoner when the game knows
/// skeletons; the caller spawns them.
pub fn progress_prison_conversions(
    state: &mut GameState,
    known_monsters: &Vec<String>,
    skeleton_rate: u32,
    torture_rate: u32,
    dt_ms: u64,
) -> (spots: Vec<TilePos>)
    ensures
        ({
            let es0 = old(state).entities@;
            let rooms = old(state).rooms@;
            let skeletons = holds_str(known_monsters@, "skeleton"@);
            let news = prison_news(es0, es0, rooms, skeleton_rate, torture_rate, dt_ms, skeletons);
            let ns0 = old(state).notifications@;
            let ns1 = final(state).notifications@;
            &&& *final(state) == (GameState {
                entities: final(state).entities,
                notifications: final(state).notifications,
                ..*old(state)
            })
            &&& final(state).entities@ == prison_pass(es0, es0, rooms, skeleton_rate, torture_rate, dt_ms)
            &&& ns1.len() == ns0.len() + news.len()
            &&& ns1.take(ns0.len() as int) == ns0
            &&& forall|k: int|
                0 <= k < news.len() ==> (#[trigger] ns1[ns0.len() + k]).level == NoticeLevel::Success
                    && ns1[ns0.len() + k].message@ == news[k]
            &&& spots@ == if skeletons {
                rot_spots(es0, es0, rooms, skeleton_rate, torture_rate, dt_ms)
            } else {
                Seq::empty()
            }
        }),
{
    let ghost s0 = *state;
    let ghost es0 = s0.entities@;
    let ghost ns0 = s0.notifications@;
    let skeletons = contains_str(known_monsters, "skeleton");
    let active = torture_rooms(&state.entities);
    let n = state.entities.len();
    let mut rest: Vec<Entity> = Vec::new();
    std::mem::swap(&mut rest, &mut state.entities);
    let mut kept: Vec<Entity> = Vec::new();
    let mut spots: Vec<TilePos> = Vec::new();
    let mut i: usize = 0;
    while rest.len() > 0
        invariant
            es0 == s0.entities@,
            es0.len() == n,
            ns0 == s0.notifications@,
            skeletons == holds_str(known_monsters@, "skeleton"@),
            forall|id: usize| #[trigger] active@.contains(id) <==> torture_active(es0, id),
            *state == (GameState { entities: state.entities, notifications: state.notifications, ..s0 }),
            i <= es0.len(),
            rest@ == es0.skip(i as int),
            kept@ == prison_pass(es0.take(i as int), es0, s0.rooms@, skeleton_rate, torture_rate, dt_ms),
            spots@ == if skeletons {
                rot_spots(es0.take(i as int), es0, s0.rooms@, skeleton_rate, torture_rate, dt_ms)
            } else {
                Seq::empty()
            },
            state.notifications@.len() == ns0.len() + prison_news(es0.take(i as int), es0, s0.rooms@, skeleton_rate, torture_rate, dt_ms, skeletons).len(),
            state.notifications@.take(ns0.len() as int) == ns0,
            forall|k: int|
                0 <= k < prison_news(es0.take(i as int), es0, s0.rooms@, skeleton_rate, torture_rate, dt_ms, skeletons).len()
                    ==> (#[trigger] state.notifications@[ns0.len() + k]).level == NoticeLevel::Success
                    && state.notifications@[ns0.len() + k].message@ == prison_news(es0.take(i as int), es0, s0.rooms@, skeleton_rate, torture_rate, dt_ms, skeletons)[k],
        decreases rest@.len(),
    {
        proof {
            assert(es0.skip(i as int).len() == es0.len() - i);
        }
        let e = rest.remove(0);
        proof {
            assert(es0.skip(i as int)[0] == es0[i as int]);
            assert(es0.take(i + 1).drop_last() =~= es0.take(i as int));
            assert(es0.take(i + 1).last() == es0[i as int]);
            assert(rest@ =~= es0.skip(i + 1));
        }
        let held: Option<bool> = match &e.entity_type {
            EntityType::Hero(h) => if h.is_captured && !h.is_converted {
                match find_room_holding(&state.rooms, e.pos) {
                    Some(k) => {
                        if str_eq(state.rooms[k].room_type.as_str(), "prison") {
                            Some(false)
                        } else if str_eq(state.rooms[k].room_type.as_str(), "torture_chamber")
                            && contains_id(&active, state.rooms[k].id) {
                            Some(true)
                        } else {
                            None
                        }
                    },
                    None => None,
                }
            } else {
                None
            },
            _ => None,
        };
        assert(held == held_by(s0.rooms@, es0, es0[i as int]));
        let ghost before_news = prison_news(es0.take(i as int), es0, s0.rooms@, skeleton_rate, torture_rate, dt_ms, skeletons);
        let ghost nb = state.notifications@;
        let mut e = e;
        let mut rotted = false;
        match held {
            Some(torture) => {
                let rate = if torture { torture_rate } else { skeleton_rate };
                assert((rate as int) * (dt_ms as int) <= 0xffff_ffff * 0xffff_ffff_ffff_ffff) by (nonlinear_arith)
                    requires
                        rate <= 0xffff_ffff,
                        dt_ms <= 0xffff_ffff_ffff_ffff,
                ;
                let add: u128 = (rate as u128) * (dt_ms as u128) / 1000;
                match &mut e.entity_type {
                    EntityType::Hero(h) => {
                        let q: u128 = h.conversion_progress_permille as u128 + add;
                        let p: u32 = if q > u32::MAX as u128 { u32::MAX } else { q as u32 };
                        h.conversion_progress_permille = p;
                    },
                    _ => {},
                }
                let done = match &e.entity_type {
                    EntityType::Hero(h) => h.conversion_progress_permille >= 1000,
                    _ => false,
                };
                if done {
                    if torture {
                        let pos = e.pos;
                        proof {
                            reveal_strlit("");
                        }
                        let mut name = owned("");
                        match &mut e.entity_type {
                            EntityType::Hero(h) => {
                                h.is_converted = true;
                                h.is_captured = false;
                                h.current_goal = HeroGoal::RestAtSpawn(pos);
                                name.append(h.hero_id.as_str());
                            },
                            _ => {},
                        }
                        let heal = match &e.entity_type {
                            EntityType::Hero(h) => h.max_health,
                            _ => e.health,
                        };
                        e.health = heal;
                        name.append(" converted to your side!");
                        state.notifications.push(Notice { level: NoticeLevel::Success, message: name });
                    } else {
                        rotted = true;
                        if skeletons {
                            spots.push(e.pos);
                            state.notifications.push(
                                Notice { level: NoticeLevel::Success, message: owned("Captured hero rotted into a Skeleton!") },
                            );
                        }
                    }
                }
            },
            None => {},
        }
        if !rotted {
            kept.push(e);
        }
        proof {
            let after_news = prison_news(es0.take(i + 1), es0, s0.rooms@, skeleton_rate, torture_rate, dt_ms, skeletons);
            let ei = es0[i as int];
            let fate = after_prison(ei, held, skeleton_rate, torture_rate, dt_ms);
            assert(prison_pass(es0.take(i + 1), es0, s0.rooms@, skeleton_rate, torture_rate, dt_ms) == prison_pass(
                es0.take(i as int),
                es0,
                s0.rooms@,
                skeleton_rate,
                torture_rate,
                dt_ms,
            ) + match fate {
                Some(e1) => seq![e1],
                None => Seq::empty(),
            });
            assert(rotted == (fate is None));
            assert(!rotted ==> e == fate->0);
            if turned(ei, held, skeleton_rate, torture_rate, dt_ms) {
                assert(after_news == before_news.push((ei.entity_type->Hero_0).hero_id@ + " converted to your side!"@));
                assert(state.notifications@.last().message@ == (ei.entity_type->Hero_0).hero_id@ + " converted to your side!"@);
            } else if fate is None && skeletons {
                assert(after_news == before_news.push("Captured hero rotted into a Skeleton!"@));
            } else {
                assert(after_news == before_news);
                assert(state.notifications@ == nb);
            }
            assert(state.notifications@.take(ns0.len() as int) =~= ns0);
            assert forall|k: int| 0 <= k < after_news.len() implies (#[trigger] state.notifications@[ns0.len() + k]).level
                == NoticeLevel::Success && state.notifications@[ns0.len() + k].message@ == after_news[k] by {
                if k < before_news.len() {
                    assert(after_news[k] == before_news[k]);
                    assert(state.notifications@[ns0.len() + k] == nb[ns0.len() + k]);
                }
            }
        }
        i = i + 1;
    }
    proof {
        assert(i == es0.len());
        assert(es0.take(i as int) =~= es0);
    }
    state.entities = kept;
    spots
}


} // verus!
