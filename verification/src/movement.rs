//! Creatures and heroes walking their paths one step per interval.
use vstd::prelude::*;
use crate::tiles::TilePos;
use crate::world::{CreatureState, Entity, EntityType, HeroState};
use crate::hero_digging::first_with_id;

verus! {

/// One movement tick of a walker with path `path`, move timer `timer` and
/// step interval `interval`, after `dt` milliseconds: with steps left, the
/// timer runs up; once it reaches the interval the walker takes the first step
/// (returned), the timer starts over and the step leaves the path (an emptied
/// path is dropped). Without steps left nothing changes.
pub open spec fn walked(
    path: Option<Vec<TilePos>>,
    timer: u64,
    interval: u64,
    dt: int,
    path1: Option<Vec<TilePos>>,
    timer1: u64,
    r: Option<TilePos>,
) -> bool {
    match path {
        Some(p) if p@.len() > 0 => {
            let t = if timer + dt > u64::MAX { u64::MAX as int } else { timer + dt };
            if t >= interval {
                &&& r == Some(p@[0])
                &&& timer1 == 0
                &&& if p@.len() == 1 {
                    path1 is None
                } else {
                    path1 matches Some(q) && q@ == p@.drop_first()
                }
            } else {
                r is None && timer1 == t && path1 == path
            }
        },
        _ => r is None && timer1 == timer && path1 == path,
    }
}

/// Where a walker at `pos` stands after a tick that took the step `r`.
pub open spec fn stepped_to(pos: TilePos, r: Option<TilePos>) -> TilePos {
    match r {
        Some(p) => p,
        None => pos,
    }
}

/// One movement tick of entity `e0` (becoming `e1`) after `dt` milliseconds:
/// creatures and heroes walk (see `walked`); other entities stay as they are.
pub open spec fn moved(e0: Entity, e1: Entity, dt: int, r: Option<TilePos>) -> bool {
    match (e0.entity_type, e1.entity_type) {
        (EntityType::Creature(c0), EntityType::Creature(c1)) => {
            &&& walked(c0.current_path, c0.move_timer_ms, c0.move_interval_ms, dt, c1.current_path, c1.move_timer_ms, r)
            &&& c1 == (CreatureState { current_path: c1.current_path, move_timer_ms: c1.move_timer_ms, ..c0 })
            &&& e1 == (Entity { pos: stepped_to(e0.pos, r), entity_type: e1.entity_type, ..e0 })
        },
        (EntityType::Hero(h0), EntityType::Hero(h1)) => {
            &&& walked(h0.current_path, h0.move_timer_ms, h0.move_interval_ms, dt, h1.current_path, h1.move_timer_ms, r)
            &&& h1 == (HeroState { current_path: h1.current_path, move_timer_ms: h1.move_timer_ms, ..h0 })
            &&& e1 == (Entity { pos: stepped_to(e0.pos, r), entity_type: e1.entity_type, ..e0 })
        },
        (EntityType::Creature(_), _) => false,
        (EntityType::Hero(_), _) => false,
        _ => e1 == e0 && r is None,
    }
}

/// One movement tick of a path and its timer (see `walked`).
fn walk_path(path: &mut Option<Vec<TilePos>>, timer: &mut u64, interval: u64, dt_ms: u64) -> (r: Option<TilePos>)
    ensures
        walked(*old(path), *old(timer), interval, dt_ms as int, *final(path), *final(timer), r),
{
    let has_steps = match path {
        Some(p) => p.len() > 0,
        None => false,
    };
    if !has_steps {
        return None;
    }
    let t = timer.saturating_add(dt_ms);
    if t < interval {
        *timer = t;
        return None;
    }
    let ghost p0 = path->0@;
    let mut p = match path.take() {
        Some(p) => p,
        None => {
            return None;
        },
    };
    let first = p.remove(0);
    *timer = 0;
    if p.len() == 0 {
        *path = None;
    } else {
        *path = Some(p);
    }
    proof {
        assert(p0.drop_first() =~= p0.remove(0));
    }
    Some(first)
}

impl Entity {
    /// One movement tick of this entity (see `moved`).
    pub fn walk(&mut self, dt_ms: u64) -> (r: Option<TilePos>)
        ensures
            moved(*old(self), *final(self), dt_ms as int, r),
    {
        let r = match &mut self.entity_type {
            EntityType::Creature(c) => walk_path(&mut c.current_path, &mut c.move_timer_ms, c.move_interval_ms, dt_ms),
            EntityType::Hero(h) => walk_path(&mut h.current_path, &mut h.move_timer_ms, h.move_interval_ms, dt_ms),
            _ => None,
        };
        if let Some(p) = r {
            self.pos = p;
        }
        r
    }
}

/// What one movement tick of the entity with id `id` (the first with that id)
/// does to the entities `es0` (becoming `es1`): it moves (see `moved`) and the
/// others stay; with no such entity nothing moves.
pub open spec fn entity_walked(es0: Seq<Entity>, es1: Seq<Entity>, id: u64, dt: int, r: Option<TilePos>) -> bool {
    &&& es1.len() == es0.len()
    &&& forall|i: int|
        first_with_id(es0, id, i) ==> moved(es0[i], es1[i], dt, r) && forall|j: int|
            0 <= j < es0.len() && j != i ==> #[trigger] es1[j] == es0[j]
    &&& (forall|i: int| !first_with_id(es0, id, i)) ==> es1 == es0 && r is None
}

/// One movement tick of the entity with id `entity_id` (the first with that
/// id) after `dt_ms` milliseconds (see `moved`); the step it took, if any.
/// No such entity: nothing changes.
pub fn process_entity_movement(entities: &mut Vec<Entity>, entity_id: u64, dt_ms: u64) -> (r: Option<TilePos>)
    ensures
        entity_walked(old(entities)@, final(entities)@, entity_id, dt_ms as int, r),
        (forall|i: int| !first_with_id(old(entities)@, entity_id, i)) ==> *final(entities) == *old(entities),
{
    let mut i: usize = 0;
    while i < entities.len()
        invariant
            *entities == *old(entities),
            i <= entities@.len(),
            forall|j: int| 0 <= j < i ==> (#[trigger] entities@[j]).id != entity_id,
        decreases entities@.len() - i,
    {
        if entities[i].id == entity_id {
            let ghost before = entities@;
            proof {
                assert(first_with_id(before, entity_id, i as int));
                assert forall|k: int| first_with_id(before, entity_id, k) implies k == i by {
                    if k < i {
                        assert(before[k].id != entity_id);
                    }
                    if i < k {
                        assert(before[i as int].id != entity_id);
                    }
                }
            }
            let r = entities[i].walk(dt_ms);
            return r;
        }
        i = i + 1;
    }
    None
}

} // verus!
