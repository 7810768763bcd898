use dungeon_core::balance::{
    check_starting_resources, CapacityConfig, ResourceConfig, SimpleRng, LCG_MULTIPLIER, MIN_DUNGEON_COST,
};

#[test]
fn the_generator_starts_at_its_seed() {
    let rng = SimpleRng::new(1234);
    assert_eq!(rng.state, 1234);
}

#[test]
fn the_generator_steps_by_the_numerical_recipes_constants() {
    let mut rng = SimpleRng::new(0);
    assert_eq!(rng.next(), 1);
    assert_eq!(rng.next(), LCG_MULTIPLIER + 1);
    let mut rng = SimpleRng::new(42);
    assert_eq!(rng.next(), 9039304369631583587);
    assert_eq!(rng.next(), 8647191391818483560);
    assert_eq!(rng.next(), 10334312345110439241);
    assert_eq!(rng.state, 10334312345110439241);
}

#[test]
fn the_generator_wraps_around() {
    let mut rng = SimpleRng::new(u64::MAX);
    assert_eq!(rng.next(), 12082607849862758612);
}

#[test]
fn equal_seeds_give_equal_streams() {
    let mut a = SimpleRng::new(7);
    let mut b = SimpleRng::new(7);
    for _ in 0..100 {
        assert_eq!(a.next(), b.next());
    }
}

#[test]
fn starting_resources_are_checked_against_the_smallest_dungeon() {
    assert_eq!(MIN_DUNGEON_COST, 50 * 9 + 75 * 9 + 100 * 4);
    let cap = CapacityConfig { max_gold: 5000, max_mana: 100 };
    let res = ResourceConfig { gold: 1525, mana: 50, food: 0 };
    assert_eq!(check_starting_resources(cap, res), (true, true));
    let poor = ResourceConfig { gold: 1524, mana: 50, food: 0 };
    assert_eq!(check_starting_resources(cap, poor), (true, false));
    let no_mana = CapacityConfig { max_gold: 5000, max_mana: 0 };
    assert_eq!(check_starting_resources(no_mana, res), (false, true));
}
