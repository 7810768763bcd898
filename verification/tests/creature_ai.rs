use dungeon_core::creature_ai::{
    combat_interrupt, needs_path, path_is_stale, plan_creature_turn, CombatMove, CreaturePlan, TaskChoice,
};
use dungeon_core::tiles::TilePos;

#[test]
fn a_nearby_enemy_interrupts_only_a_creature_at_peace() {
    assert_eq!(combat_interrupt(false, false, Some(7)), Some(7));
    assert_eq!(combat_interrupt(true, false, Some(7)), None);
    assert_eq!(combat_interrupt(false, true, Some(7)), None);
    assert_eq!(combat_interrupt(false, false, None), None);
}

#[test]
fn a_chased_target_makes_a_path_stale_when_it_ends_elsewhere() {
    let target = TilePos::new(4, 4);
    assert!(!path_is_stale(None, target));
    assert!(path_is_stale(Some(&Vec::new()), target));
    assert!(path_is_stale(Some(&vec![TilePos::new(3, 4), TilePos::new(4, 5)]), target));
    assert!(!path_is_stale(Some(&vec![TilePos::new(3, 4), target]), target));
}

#[test]
fn combat_movement_decides_the_turn_before_tasks() {
    assert_eq!(plan_creature_turn(Some(CombatMove::StayAndFight), true, true, false), CreaturePlan::Hold);
    let spot = TilePos::new(2, 3);
    assert_eq!(plan_creature_turn(Some(CombatMove::Kite(spot)), false, true, true), CreaturePlan::Kite(spot));
    assert_eq!(plan_creature_turn(Some(CombatMove::TargetLost), false, false, false), CreaturePlan::DropTarget);
    assert_eq!(
        plan_creature_turn(Some(CombatMove::ChaseTarget), true, false, false),
        CreaturePlan::Proceed { clear_path: true, task: TaskChoice::Keep }
    );
    assert_eq!(
        plan_creature_turn(Some(CombatMove::ChaseTarget), false, false, false),
        CreaturePlan::Proceed { clear_path: false, task: TaskChoice::Keep }
    );
    assert_eq!(
        plan_creature_turn(None, true, true, true),
        CreaturePlan::Proceed { clear_path: false, task: TaskChoice::Idle }
    );
    assert_eq!(
        plan_creature_turn(None, false, true, false),
        CreaturePlan::Proceed { clear_path: false, task: TaskChoice::Decide }
    );
    assert!(needs_path(false, true));
    assert!(!needs_path(true, true));
    assert!(!needs_path(false, false));
}
