//! Tile positions, ownership and the per-tile state of the dungeon grid.
use vstd::prelude::*;

verus! {

/// A position on the tile grid.
#[derive(Clone, Copy, Debug, PartialEq, Eq, Structural, Hash)]
pub struct TilePos {
    pub x: i32,
    pub y: i32,
}

/// Absolute value of an integer.
pub open spec fn abs_int(v: int) -> int {
    if v < 0 {
        -v
    } else {
        v
    }
}

/// Manhattan distance between two positions.
pub open spec fn manhattan(a: TilePos, b: TilePos) -> int {
    abs_int(a.x - b.x) + abs_int(a.y - b.y)
}

/// Squared Euclidean distance between two positions.
pub open spec fn dist_sq(a: TilePos, b: TilePos) -> int {
    (a.x - b.x) * (a.x - b.x) + (a.y - b.y) * (a.y - b.y)
}

/// True when the two positions share an edge (4-neighbourhood).
pub open spec fn adjacent(a: TilePos, b: TilePos) -> bool {
    manhattan(a, b) == 1
}

impl TilePos {
    pub fn new(x: i32, y: i32) -> (p: TilePos)
        ensures
            p.x == x,
            p.y == y,
    {
        TilePos { x, y }
    }

    /// Manhattan distance to another position.
    pub fn manhattan_distance(&self, other: &TilePos) -> (d: i64)
        ensures
            d == manhattan(*self, *other),
    {
        let dx: i64 = self.x as i64 - other.x as i64;
        let dy: i64 = self.y as i64 - other.y as i64;
        let ax: i64 = if dx < 0 {
            -dx
        } else {
            dx
        };
        let ay: i64 = if dy < 0 {
            -dy
        } else {
            dy
        };
        ax + ay
    }

    /// Squared Euclidean distance to another position.
    pub fn distance_squared(&self, other: &TilePos) -> (d: i128)
        ensures
            d == dist_sq(*self, *other),
            0 <= d <= 0x2_0000_0000_0000_0000,
    {
        let dx: i128 = self.x as i128 - other.x as i128;
        let dy: i128 = self.y as i128 - other.y as i128;
        assert(0 <= dx * dx <= 0x1_0000_0000_0000_0000) by (nonlinear_arith)
            requires
                -0x1_0000_0000 <= dx <= 0x1_0000_0000,
        ;
        assert(0 <= dy * dy <= 0x1_0000_0000_0000_0000) by (nonlinear_arith)
            requires
                -0x1_0000_0000 <= dy <= 0x1_0000_0000,
        ;
        dx * dx + dy * dy
    }
}

/// The four edge neighbours of a position, in the order right, left, down, up.
pub open spec fn cardinal_neighbors_spec(p: TilePos) -> Seq<TilePos> {
    seq![
        TilePos { x: (p.x + 1) as i32, y: p.y },
        TilePos { x: (p.x - 1) as i32, y: p.y },
        TilePos { x: p.x, y: (p.y + 1) as i32 },
        TilePos { x: p.x, y: (p.y - 1) as i32 },
    ]
}

/// The four edge neighbours of a position (right, left, down, up).
pub fn cardinal_neighbors(pos: TilePos) -> (r: [TilePos; 4])
    requires
        i32::MIN < pos.x < i32::MAX,
        i32::MIN < pos.y < i32::MAX,
    ensures
        r@ == cardinal_neighbors_spec(pos),
{
    let r = [
        TilePos::new(pos.x + 1, pos.y),
        TilePos::new(pos.x - 1, pos.y),
        TilePos::new(pos.x, pos.y + 1),
        TilePos::new(pos.x, pos.y - 1),
    ];
    assert(r@ =~= cardinal_neighbors_spec(pos));
    r
}

/// How a tile is claimed on the map.
#[derive(Clone, Copy, Debug, PartialEq, Eq, Structural, Hash)]
pub enum Ownership {
    Unclaimed,
    Player,
    Enemy,
}

/// Who owns a tile or an entity.
#[derive(Clone, Copy, Debug, PartialEq, Eq, Structural, Hash)]
pub enum OwnerId {
    Player,
    Neutral,
    Heroes,
    RivalKeeper(u32),
}

/// The ownership classification that follows from an owner.
pub open spec fn ownership_of(owner: OwnerId) -> Ownership {
    match owner {
        OwnerId::Player => Ownership::Player,
        OwnerId::Neutral => Ownership::Unclaimed,
        _ => Ownership::Enemy,
    }
}

/// Two owners are hostile when both are factions (not neutral) and differ.
pub open spec fn hostile(a: OwnerId, b: OwnerId) -> bool {
    a != OwnerId::Neutral && b != OwnerId::Neutral && a != b
}

impl OwnerId {
    /// Whether this owner is hostile to `other`.
    pub fn is_hostile_to(&self, other: &OwnerId) -> (r: bool)
        ensures
            r == hostile(*self, *other),
    {
        match (*self, *other) {
            (OwnerId::Neutral, _) => false,
            (_, OwnerId::Neutral) => false,
            (a, b) => !owner_eq(a, b),
        }
    }

    /// Whether this owner is the human player.
    pub fn is_player_controlled(&self) -> (r: bool)
        ensures
            r == (*self == OwnerId::Player),
    {
        match self {
            OwnerId::Player => true,
            _ => false,
        }
    }
}

/// Equality of owners.
pub fn owner_eq(a: OwnerId, b: OwnerId) -> (r: bool)
    ensures
        r == (a == b),
{
    match (a, b) {
        (OwnerId::Player, OwnerId::Player) => true,
        (OwnerId::Neutral, OwnerId::Neutral) => true,
        (OwnerId::Heroes, OwnerId::Heroes) => true,
        (OwnerId::RivalKeeper(i), OwnerId::RivalKeeper(j)) => i == j,
        _ => false,
    }
}

/// Equality of ownership classes.
pub fn ownership_eq(a: Ownership, b: Ownership) -> (r: bool)
    ensures
        r == (a == b),
{
    match (a, b) {
        (Ownership::Unclaimed, Ownership::Unclaimed) => true,
        (Ownership::Player, Ownership::Player) => true,
        (Ownership::Enemy, Ownership::Enemy) => true,
        _ => false,
    }
}

/// Fog-of-war visibility of a tile.
#[derive(Clone, Copy, Debug, PartialEq, Eq, Structural, Hash)]
pub enum FogState {
    Hidden,
    Explored,
    Visible,
}

/// The state of one tile of the dungeon.
#[derive(Debug)]
pub struct TileState {
    pub tile_type: String,
    pub pos: TilePos,
    pub ownership: Ownership,
    pub owner: OwnerId,
    pub marked_for_dig: bool,
    pub resources_remaining: Option<u32>,
    pub room_id: Option<usize>,
    pub fog_state: FogState,
}

/// A fresh tile of the given type: unclaimed, neutral, unmarked, hidden.
pub open spec fn fresh_tile(tile_type: Seq<char>, pos: TilePos, t: TileState) -> bool {
    &&& t.tile_type@ == tile_type
    &&& t.pos == pos
    &&& t.ownership == Ownership::Unclaimed
    &&& t.owner == OwnerId::Neutral
    &&& !t.marked_for_dig
    &&& t.resources_remaining is None
    &&& t.room_id is None
    &&& t.fog_state == FogState::Hidden
}

/// `a` and `b` agree on every field but the tile type.
pub open spec fn same_but_type(a: TileState, b: TileState) -> bool {
    &&& a.pos == b.pos
    &&& a.ownership == b.ownership
    &&& a.owner == b.owner
    &&& a.marked_for_dig == b.marked_for_dig
    &&& a.resources_remaining == b.resources_remaining
    &&& a.room_id == b.room_id
    &&& a.fog_state == b.fog_state
}

impl TileState {
    pub fn new(tile_type: String, pos: TilePos) -> (t: TileState)
        ensures
            fresh_tile(tile_type@, pos, t),
    {
        TileState {
            tile_type,
            pos,
            ownership: Ownership::Unclaimed,
            owner: OwnerId::Neutral,
            marked_for_dig: false,
            resources_remaining: None,
            room_id: None,
            fog_state: FogState::Hidden,
        }
    }

    /// A field-by-field copy of this tile.
    pub fn copy(&self) -> (t: TileState)
        ensures
            t.tile_type@ == self.tile_type@,
            same_but_type(t, *self),
    {
        TileState {
            tile_type: self.tile_type.clone(),
            pos: self.pos,
            ownership: self.ownership,
            owner: self.owner,
            marked_for_dig: self.marked_for_dig,
            resources_remaining: self.resources_remaining,
            room_id: self.room_id,
            fog_state: self.fog_state,
        }
    }

    /// Hand the tile to `owner`; its ownership class follows the owner.
    pub fn set_owner(&mut self, owner: OwnerId)
        ensures
            final(self).owner == owner,
            final(self).ownership == ownership_of(owner),
            final(self).tile_type@ == old(self).tile_type@,
            final(self).pos == old(self).pos,
            final(self).marked_for_dig == old(self).marked_for_dig,
            final(self).resources_remaining == old(self).resources_remaining,
            final(self).room_id == old(self).room_id,
            final(self).fog_state == old(self).fog_state,
    {
        self.owner = owner;
        self.ownership = match owner {
            OwnerId::Player => Ownership::Player,
            OwnerId::Neutral => Ownership::Unclaimed,
            _ => Ownership::Enemy,
        };
    }
}

/// Tile types that block movement until they are mined out.
pub open spec fn is_solid_type(t: Seq<char>) -> bool {
    ||| t == "solid_rock"@
    ||| t == "earth"@
    ||| t == "gold_vein"@
    ||| t == "gem_seam"@
    ||| t == "mana_crystal"@
    ||| t == "reinforced_wall"@
}

/// Which of the tile types named in this crate are solid.
pub proof fn lemma_solid_types()
    ensures
        is_solid_type("solid_rock"@),
        is_solid_type("earth"@),
        is_solid_type("gold_vein"@),
        is_solid_type("gem_seam"@),
        is_solid_type("mana_crystal"@),
        !is_solid_type("floor"@),
        !is_solid_type("claimed_floor"@),
{
    reveal_strlit("solid_rock");
    reveal_strlit("earth");
    reveal_strlit("gold_vein");
    reveal_strlit("gem_seam");
    reveal_strlit("mana_crystal");
    reveal_strlit("reinforced_wall");
    reveal_strlit("floor");
    reveal_strlit("claimed_floor");
    assert("floor"@[0] != "earth"@[0]);
    assert("floor"@.len() != "solid_rock"@.len());
    assert("floor"@.len() != "gold_vein"@.len());
    assert("floor"@.len() != "gem_seam"@.len());
    assert("floor"@.len() != "mana_crystal"@.len());
    assert("floor"@.len() != "reinforced_wall"@.len());
    assert("claimed_floor"@.len() != "earth"@.len());
    assert("claimed_floor"@.len() != "solid_rock"@.len());
    assert("claimed_floor"@.len() != "gold_vein"@.len());
    assert("claimed_floor"@.len() != "gem_seam"@.len());
    assert("claimed_floor"@.len() != "mana_crystal"@.len());
    assert("claimed_floor"@.len() != "reinforced_wall"@.len());
}

/// Check if a tile type is considered solid (blocks movement until mined).
pub fn is_solid_tile(tile_type: &str) -> (r: bool)
    ensures
        r == is_solid_type(tile_type@),
{
    str_eq(tile_type, "solid_rock") || str_eq(tile_type, "earth") || str_eq(tile_type, "gold_vein")
        || str_eq(tile_type, "gem_seam") || str_eq(tile_type, "mana_crystal") || str_eq(
        tile_type,
        "reinforced_wall",
    )
}

/// Equality of two string slices (`<str as PartialEq>::eq`): true exactly when
/// both hold the same characters.
#[verifier::external_body]
pub(crate) fn str_eq(a: &str, b: &str) -> (r: bool)
    ensures
        r == (a@ == b@),
{
    a == b
}

/// An owned copy of a string slice.
pub fn owned(s: &str) -> (r: String)
    ensures
        r@ == s@,
{
    s.to_owned()
}

} // verus!
