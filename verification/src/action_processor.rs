//! UI actions and what they do to the game state. Saving, loading and
//! starting research are handed back to the caller, which owns the save files
//! and the research tree.
use vstd::prelude::*;
use vstd::string::StringExecFns;
use crate::tiles::{TilePos, TileState, Ownership, str_eq, owned};
use crate::grid::{cells, in_bounds};
use crate::world::{GameState, Dungeon, Notice, NoticeLevel, dungeon_wf, on_grid, tile_at};
use crate::imp_ai::grid_same_but_at;

verus! {

/// What kind of being a summon creates.
#[derive(Clone, Copy, Debug, PartialEq, Eq, Structural)]
pub enum EntityCategory {
    Monster,
    Hero,
}

/// What a click on the map does.
#[derive(Debug)]
pub enum InteractionMode {
    /// No tool selected.
    Idle,
    Dig,
    BuildRoom(String),
    BuildTrap(String),
    PlaceSpawner,
    Inspect,
    Pickup,
    Drop,
    Sell,
    SaveGame,
    SetAttackMarker,
    SetDefendMarker,
    Summon(String, EntityCategory, u32),
}

/// An action requested by the user interface.
#[derive(Debug)]
pub enum UiAction {
    TogglePause,
    StartResearch(String),
    SaveGame,
    LoadGame,
    CheatAddGold(i32),
    CheatToggleFog,
    CheatInstantDig(TilePos),
    CheatToggleImmortalHeart,
}

/// Work that an action asks of the caller: starting a research, or saving or
/// loading the game.
#[derive(Debug)]
pub enum PendingAction {
    StartResearch(String),
    SaveGame,
    LoadGame,
}

/// Result of processing an action.
#[derive(Debug)]
pub struct ActionResult {
    /// New interaction mode if action changed it
    pub new_mode: Option<InteractionMode>,
    /// Clear entity selection
    pub deselect_entity: bool,
    /// Clear room selection
    pub deselect_room: bool,
    /// Work left to the caller
    pub pending: Option<PendingAction>,
}

/// The decimal digit character for `d` (0 to 9).
pub open spec fn digit_char(d: int) -> char {
    if d == 0 {
        '0'
    } else if d == 1 {
        '1'
    } else if d == 2 {
        '2'
    } else if d == 3 {
        '3'
    } else if d == 4 {
        '4'
    } else if d == 5 {
        '5'
    } else if d == 6 {
        '6'
    } else if d == 7 {
        '7'
    } else if d == 8 {
        '8'
    } else {
        '9'
    }
}

/// The decimal digits of `n`.
pub open spec fn nat_text(n: nat) -> Seq<char>
    decreases n,
{
    if n < 10 {
        seq![digit_char(n as int)]
    } else {
        nat_text(n / 10).push(digit_char((n % 10) as int))
    }
}

/// An integer written in decimal, with a minus sign when negative.
pub open spec fn int_text(n: int) -> Seq<char> {
    if n < 0 {
        seq!['-'] + nat_text((-n) as nat)
    } else {
        nat_text(n as nat)
    }
}

/// The one-character string of a decimal digit.
fn digit_str(d: u64) -> (s: &'static str)
    requires
        d < 10,
    ensures
        s@ == seq![digit_char(d as int)],
{
    proof {
        reveal_strlit("0");
        reveal_strlit("1");
        reveal_strlit("2");
        reveal_strlit("3");
        reveal_strlit("4");
        reveal_strlit("5");
        reveal_strlit("6");
        reveal_strlit("7");
        reveal_strlit("8");
        reveal_strlit("9");
    }
    if d == 0 {
        "0"
    } else if d == 1 {
        "1"
    } else if d == 2 {
        "2"
    } else if d == 3 {
        "3"
    } else if d == 4 {
        "4"
    } else if d == 5 {
        "5"
    } else if d == 6 {
        "6"
    } else if d == 7 {
        "7"
    } else if d == 8 {
        "8"
    } else {
        "9"
    }
}

/// Append the decimal digits of `n`.
fn append_digits(s: &mut String, n: u64)
    ensures
        final(s)@ == old(s)@ + nat_text(n as nat),
    decreases n,
{
    if n >= 10 {
        append_digits(s, n / 10);
    }
    s.append(digit_str(n % 10));
    assert(final(s)@ =~= old(s)@ + nat_text(n as nat));
}

/// An integer written in decimal, as `format!("{}", n)` writes it.
pub fn int_to_text(n: i32) -> (s: String)
    ensures
        s@ == int_text(n as int),
{
    let mut s = String::new();
    if n < 0 {
        proof {
            reveal_strlit("-");
        }
        s.append("-");
        let m: u64 = (0i64 - n as i64) as u64;
        append_digits(&mut s, m);
        assert(s@ =~= int_text(n as int));
    } else {
        append_digits(&mut s, n as u64);
        assert(s@ =~= int_text(n as int));
    }
    s
}

/// `b` is `a` with one more message for the player.
pub open spec fn with_notice(a: GameState, b: GameState, level: NoticeLevel, message: Seq<char>) -> bool {
    &&& b.notifications@.len() == a.notifications@.len() + 1
    &&& b.notifications@.drop_last() == a.notifications@
    &&& b.notifications@.last().level == level
    &&& b.notifications@.last().message@ == message
}

/// The tile at `pos` may be dug out instantly: it is on the grid and not
/// already floor.
pub open spec fn instant_diggable(d: Dungeon, pos: TilePos) -> bool {
    on_grid(d, pos) && tile_at(d, pos).tile_type@ != "floor"@ && tile_at(d, pos).tile_type@
        != "claimed_floor"@
}

/// `b` is `a` with the tile at `pos` turned into the player's floor.
pub open spec fn instantly_dug(a: Dungeon, b: Dungeon, pos: TilePos) -> bool {
    let t0 = tile_at(a, pos);
    let t1 = tile_at(b, pos);
    &&& b.width == a.width
    &&& b.height == a.height
    &&& grid_same_but_at(cells(&a.grid), cells(&b.grid), pos)
    &&& t1.tile_type@ == "floor"@
    &&& t1.ownership == Ownership::Player
    &&& !t1.marked_for_dig
    &&& t1.pos == t0.pos
    &&& t1.owner == t0.owner
    &&& t1.resources_remaining == t0.resources_remaining
    &&& t1.room_id == t0.room_id
    &&& t1.fog_state == t0.fog_state
}

/// The result that changes nothing and asks nothing.
pub open spec fn plain_result(r: ActionResult) -> bool {
    r.new_mode is None && !r.deselect_entity && !r.deselect_room && r.pending is None
}

/// What one action does: the state `s1` and selected spell `sp1` that follow
/// from `s0` and `sp0`, and the result handed back.
pub open spec fn action_step(
    a: UiAction,
    s0: GameState,
    s1: GameState,
    sp0: Option<String>,
    sp1: Option<String>,
    r: ActionResult,
) -> bool {
    match a {
        UiAction::TogglePause => {
            &&& s1 == GameState { paused: !s0.paused, ..s0 }
            &&& if s1.paused {
                &&& r.new_mode == Some(InteractionMode::Idle)
                &&& r.deselect_entity
                &&& r.deselect_room
                &&& r.pending is None
                &&& sp1 is None
            } else {
                plain_result(r) && sp1 == sp0
            }
        },
        UiAction::StartResearch(tech_id) => {
            &&& s1 == s0
            &&& sp1 == sp0
            &&& r.new_mode is None && !r.deselect_entity && !r.deselect_room
            &&& r.pending matches Some(PendingAction::StartResearch(t)) && t@ == tech_id@
        },
        UiAction::SaveGame => {
            &&& s1 == s0
            &&& sp1 == sp0
            &&& r.new_mode is None && !r.deselect_entity && !r.deselect_room
            &&& r.pending matches Some(PendingAction::SaveGame)
        },
        UiAction::LoadGame => {
            &&& s1 == s0
            &&& sp1 == sp0
            &&& r.new_mode is None && !r.deselect_entity && !r.deselect_room
            &&& r.pending matches Some(PendingAction::LoadGame)
        },
        UiAction::CheatAddGold(amount) => {
            &&& with_notice(
                s0,
                s1,
                NoticeLevel::Success,
                "Added "@ + int_text(amount as int) + " Gold"@,
            )
            &&& s1 == GameState {
                player: crate::world::PlayerState { gold: (s0.player.gold + amount) as i32, ..s0.player },
                notifications: s1.notifications,
                ..s0
            }
            &&& plain_result(r) && sp1 == sp0
        },
        UiAction::CheatToggleFog => {
            &&& with_notice(
                s0,
                s1,
                if s1.cheat_fog_enabled {
                    NoticeLevel::Info
                } else {
                    NoticeLevel::Warning
                },
                if s1.cheat_fog_enabled {
                    "Fog Enabled"@
                } else {
                    "Fog Disabled (Map Revealed)"@
                },
            )
            &&& s1 == GameState {
                cheat_fog_enabled: !s0.cheat_fog_enabled,
                notifications: s1.notifications,
                ..s0
            }
            &&& plain_result(r) && sp1 == sp0
        },
        UiAction::CheatInstantDig(pos) => {
            &&& s1 == GameState { dungeon: s1.dungeon, ..s0 }
            &&& if instant_diggable(s0.dungeon, pos) {
                instantly_dug(s0.dungeon, s1.dungeon, pos)
            } else {
                s1.dungeon == s0.dungeon
            }
            &&& plain_result(r) && sp1 == sp0
        },
        UiAction::CheatToggleImmortalHeart => {
            &&& with_notice(
                s0,
                s1,
                if s1.cheat_immortal_heart {
                    NoticeLevel::Success
                } else {
                    NoticeLevel::Warning
                },
                if s1.cheat_immortal_heart {
                    "Immortal Heart ENABLED"@
                } else {
                    "Immortal Heart DISABLED"@
                },
            )
            &&& s1 == GameState {
                cheat_immortal_heart: !s0.cheat_immortal_heart,
                notifications: s1.notifications,
                ..s0
            }
            &&& plain_result(r) && sp1 == sp0
        },
    }
}

/// The gold that an action leaves the player with.
pub open spec fn gold_after(gold: int, a: UiAction) -> int {
    match a {
        UiAction::CheatAddGold(amount) => gold + amount,
        _ => gold,
    }
}

/// The player's gold stays within `i32` while the actions run.
pub open spec fn gold_fits(gold: int, actions: Seq<UiAction>) -> bool
    decreases actions.len(),
{
    if actions.len() == 0 {
        true
    } else {
        let g = gold_after(gold, actions[0]);
        i32::MIN <= g <= i32::MAX && gold_fits(g, actions.drop_first())
    }
}

/// Turn the tile at `pos` into the player's floor (for the instant-dig cheat).
fn dig_instantly(d: &mut Dungeon, pos: TilePos)
    requires
        dungeon_wf(*old(d)),
    ensures
        dungeon_wf(*final(d)),
        if instant_diggable(*old(d), pos) {
            instantly_dug(*old(d), *final(d), pos)
        } else {
            *final(d) == *old(d)
        },
{
    let diggable = match d.get_tile(pos) {
        Some(tile) => !str_eq(tile.tile_type.as_str(), "floor") && !str_eq(
            tile.tile_type.as_str(),
            "claimed_floor",
        ),
        None => false,
    };
    if !diggable {
        return;
    }
    let ghost before = cells(&d.grid);
    let x = pos.x as usize;
    let y = pos.y as usize;
    assert(d.grid@[y as int]@.len() == d.width) by {
        assert(cells(&d.grid)[y as int].len() == cells(&d.grid)[0].len());
    }
    let tile = &mut d.grid[y][x];
    tile.tile_type = owned("floor");
    tile.ownership = Ownership::Player;
    tile.marked_for_dig = false;
    proof {
        let after = cells(&d.grid);
        assert forall|yy: int| 0 <= yy < after.len() implies #[trigger] after[yy].len()
            == after[0].len() by {
            assert(before[yy].len() == before[0].len());
        }
        assert forall|xx: int, yy: int| #![trigger after[yy][xx]] in_bounds(after, xx, yy)
            implies after[yy][xx].pos == (TilePos { x: xx as i32, y: yy as i32 }) by {
            assert(before[yy].len() == before[0].len());
            assert(in_bounds(before, xx, yy));
        }
    }
}

/// Process a single action.
pub fn process_single_action(
    action: UiAction,
    game_state: &mut GameState,
    selected_spell: &mut Option<String>,
) -> (result: ActionResult)
    requires
        dungeon_wf(old(game_state).dungeon),
        i32::MIN <= gold_after(old(game_state).player.gold as int, action) <= i32::MAX,
    ensures
        dungeon_wf(final(game_state).dungeon),
        action_step(
            action,
            *old(game_state),
            *final(game_state),
            *old(selected_spell),
            *final(selected_spell),
            result,
        ),
{
    let ghost a = action;
    let mut result = ActionResult {
        new_mode: None,
        deselect_entity: false,
        deselect_room: false,
        pending: None,
    };
    match action {
        UiAction::TogglePause => {
            game_state.paused = !game_state.paused;
            if game_state.paused {
                result.new_mode = Some(InteractionMode::Idle);
                result.deselect_entity = true;
                result.deselect_room = true;
                *selected_spell = None;
            }
        },
        UiAction::StartResearch(tech_id) => {
            result.pending = Some(PendingAction::StartResearch(tech_id));
        },
        UiAction::SaveGame => {
            result.pending = Some(PendingAction::SaveGame);
        },
        UiAction::LoadGame => {
            result.pending = Some(PendingAction::LoadGame);
        },
        UiAction::CheatAddGold(amount) => {
            game_state.player.gold = game_state.player.gold + amount;
            let mut message = owned("Added ");
            message.append(int_to_text(amount).as_str());
            message.append(" Gold");
            game_state.notifications.push(Notice { level: NoticeLevel::Success, message });
            assert(game_state.notifications@.drop_last() =~= old(game_state).notifications@);
        },
        UiAction::CheatToggleFog => {
            game_state.cheat_fog_enabled = !game_state.cheat_fog_enabled;
            if game_state.cheat_fog_enabled {
                game_state.notifications.push(
                    Notice { level: NoticeLevel::Info, message: owned("Fog Enabled") },
                );
            } else {
                game_state.notifications.push(
                    Notice {
                        level: NoticeLevel::Warning,
                        message: owned("Fog Disabled (Map Revealed)"),
                    },
                );
            }
            assert(game_state.notifications@.drop_last() =~= old(game_state).notifications@);
        },
        UiAction::CheatInstantDig(pos) => {
            dig_instantly(&mut game_state.dungeon, pos);
        },
        UiAction::CheatToggleImmortalHeart => {
            game_state.cheat_immortal_heart = !game_state.cheat_immortal_heart;
            if game_state.cheat_immortal_heart {
                game_state.notifications.push(
                    Notice { level: NoticeLevel::Success, message: owned("Immortal Heart ENABLED") },
                );
            } else {
                game_state.notifications.push(
                    Notice {
                        level: NoticeLevel::Warning,
                        message: owned("Immortal Heart DISABLED"),
                    },
                );
            }
            assert(game_state.notifications@.drop_last() =~= old(game_state).notifications@);
        },
    }
    result
}

/// The interaction mode after a run of results: the last mode a result set,
/// else `m`.
pub open spec fn mode_after(m: InteractionMode, results: Seq<ActionResult>) -> InteractionMode
    decreases results.len(),
{
    if results.len() == 0 {
        m
    } else {
        match results.last().new_mode {
            Some(m2) => m2,
            None => mode_after(m, results.drop_last()),
        }
    }
}

/// The work that a run of results leaves to the caller, in order.
pub open spec fn pending_of(results: Seq<ActionResult>) -> Seq<PendingAction>
    decreases results.len(),
{
    if results.len() == 0 {
        Seq::empty()
    } else {
        pending_of(results.drop_last()) + match results.last().pending {
            Some(p) => seq![p],
            None => Seq::empty(),
        }
    }
}

/// Running `actions` one after the other takes `(s0, sp0)` to `(s1, sp1)`
/// through the results `results`.
pub open spec fn actions_run(
    actions: Seq<UiAction>,
    trace: Seq<(GameState, Option<String>)>,
    results: Seq<ActionResult>,
) -> bool {
    &&& trace.len() == actions.len() + 1
    &&& results.len() == actions.len()
    &&& forall|i: int|
        0 <= i < actions.len() ==> action_step(
            #[trigger] actions[i],
            trace[i].0,
            trace[i + 1].0,
            trace[i].1,
            trace[i + 1].1,
            results[i],
        )
}

/// Process all queued actions, in order: the queue is emptied, each action
/// changes the state as `action_step` says, the interaction mode follows the
/// last action that set one, and the work left to the caller is returned in
/// order.
pub fn process_actions(
    actions: &mut Vec<UiAction>,
    game_state: &mut GameState,
    interaction_mode: &mut InteractionMode,
    selected_spell: &mut Option<String>,
) -> (pending: Vec<PendingAction>)
    requires
        dungeon_wf(old(game_state).dungeon),
        gold_fits(old(game_state).player.gold as int, old(actions)@),
    ensures
        final(actions)@.len() == 0,
        dungeon_wf(final(game_state).dungeon),
        exists|trace: Seq<(GameState, Option<String>)>, results: Seq<ActionResult>|
            #![trigger actions_run(old(actions)@, trace, results)]
            {
                &&& actions_run(old(actions)@, trace, results)
                &&& trace[0] == (*old(game_state), *old(selected_spell))
                &&& trace[old(actions)@.len() as int] == (*final(game_state), *final(selected_spell))
                &&& *final(interaction_mode) == mode_after(*old(interaction_mode), results)
                &&& pending@ == pending_of(results)
            },
{
    let ghost all = actions@;
    let mut queue: Vec<UiAction> = Vec::new();
    std::mem::swap(actions, &mut queue);
    let mut pending: Vec<PendingAction> = Vec::new();
    let ghost mut trace: Seq<(GameState, Option<String>)> = seq![(*game_state, *selected_spell)];
    let ghost mut results: Seq<ActionResult> = Seq::empty();
    let ghost m0 = *interaction_mode;
    let ghost mut done: int = 0;
    while queue.len() > 0
        invariant
            actions@.len() == 0,
            0 <= done <= all.len(),
            queue@ == all.skip(done),
            dungeon_wf(game_state.dungeon),
            gold_fits(game_state.player.gold as int, queue@),
            actions_run(all.take(done), trace, results),
            trace[0] == (*old(game_state), *old(selected_spell)),
            trace[done] == (*game_state, *selected_spell),
            *interaction_mode == mode_after(m0, results),
            m0 == *old(interaction_mode),
            pending@ == pending_of(results),
        decreases queue@.len(),
    {
        let action = queue.remove(0);
        let ghost a = action;
        assert(a == all[done]);
        let result = process_single_action(action, game_state, selected_spell);
        let ghost r = result;
        proof {
            let next = (*game_state, *selected_spell);
            let old_trace = trace;
            let old_results = results;
            trace = trace.push(next);
            results = results.push(r);
            assert(all.take(done + 1).drop_last() =~= all.take(done));
            assert(results.drop_last() =~= old_results);
            assert forall|i: int| 0 <= i < done + 1 implies action_step(
                #[trigger] all.take(done + 1)[i],
                trace[i].0,
                trace[i + 1].0,
                trace[i].1,
                trace[i + 1].1,
                results[i],
            ) by {
                if i < done {
                    assert(all.take(done + 1)[i] == all.take(done)[i]);
                    assert(trace[i] == old_trace[i]);
                    assert(trace[i + 1] == old_trace[i + 1]);
                    assert(results[i] == old_results[i]);
                }
            }
            done = done + 1;
            assert(queue@ =~= all.skip(done));
        }
        if let Some(mode) = result.new_mode {
            *interaction_mode = mode;
        }
        if let Some(p) = result.pending {
            pending.push(p);
        }
        proof {
            assert(pending@ =~= pending_of(results));
        }
    }
    proof {
        assert(all.take(done) =~= all);
    }
    pending
}

/// Pausing is undone by pausing again: two `TogglePause` actions give back
/// the state they started from.
pub proof fn pause_toggle_undoes_itself(
    s0: GameState,
    s1: GameState,
    s2: GameState,
    sp0: Option<String>,
    sp1: Option<String>,
    sp2: Option<String>,
    r1: ActionResult,
    r2: ActionResult,
)
    requires
        action_step(UiAction::TogglePause, s0, s1, sp0, sp1, r1),
        action_step(UiAction::TogglePause, s1, s2, sp1, sp2, r2),
    ensures
        s2 == s0,
{
}

/// Toggling the fog cheat twice gives back the fog setting it started from,
/// with two messages to the player.
pub proof fn fog_toggle_undoes_itself(
    s0: GameState,
    s1: GameState,
    s2: GameState,
    sp0: Option<String>,
    sp1: Option<String>,
    sp2: Option<String>,
    r1: ActionResult,
    r2: ActionResult,
)
    requires
        action_step(UiAction::CheatToggleFog, s0, s1, sp0, sp1, r1),
        action_step(UiAction::CheatToggleFog, s1, s2, sp1, sp2, r2),
    ensures
        s2.cheat_fog_enabled == s0.cheat_fog_enabled,
        s2.notifications@.len() == s0.notifications@.len() + 2,
        s2.dungeon == s0.dungeon,
        s2.player == s0.player,
        s2.paused == s0.paused,
{
}

} // verus!
