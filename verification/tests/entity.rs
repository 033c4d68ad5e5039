//! Behavior of the entity operations on concrete states.

use tamo::{Tamo, TamoRoom};

fn creature(hunger: i64, thirst: i64, happiness: i64, energy: i64, food: u32, water: u32) -> Tamo {
    Tamo {
        name: String::from("Pet"),
        age: 0,
        hunger,
        thirst,
        happiness,
        energy,
        room: TamoRoom { food, water },
    }
}

#[test]
fn build_starts_with_fixed_stats() {
    let t = Tamo::build(String::from("Pet"));
    assert_eq!(t.name, "Pet");
    assert_eq!(t.age, 0);
    assert_eq!(t.hunger, 1000);
    assert_eq!(t.thirst, 1000);
    assert_eq!(t.happiness, 10000);
    assert_eq!(t.energy, 10000);
    assert_eq!(t.room, TamoRoom { food: 100, water: 100 });
}

#[test]
fn feed_lowers_hunger_by_one_point() {
    let mut t = Tamo::build(String::from("Pet"));
    t.feed();
    assert_eq!(t.hunger, 900);
    assert_eq!(t.room.food, 100);
}

#[test]
fn feed_refuses_below_threshold_and_restocks() {
    let mut t = creature(199, 1000, 10000, 10000, 100, 100);
    t.feed();
    assert_eq!(t.hunger, 199);
    assert_eq!(t.room.food, 110);
}

#[test]
fn feed_never_crosses_the_refusal_boundary() {
    let mut t = creature(200, 1000, 10000, 10000, 100, 100);
    t.feed();
    assert_eq!(t.hunger, 100);
    assert_eq!(t.room.food, 100);
    t.feed();
    assert_eq!(t.hunger, 100);
    assert_eq!(t.room.food, 110);
}

#[test]
fn quench_lowers_thirst_and_raises_energy() {
    let mut t = Tamo::build(String::from("Pet"));
    t.quench();
    assert_eq!(t.thirst, 900);
    assert_eq!(t.energy, 10500);
}

#[test]
fn quench_refuses_below_threshold_and_restocks() {
    let mut t = creature(1000, 150, 10000, 10000, 100, 100);
    t.quench();
    assert_eq!(t.thirst, 150);
    assert_eq!(t.energy, 10000);
    assert_eq!(t.room.water, 110);
}

#[test]
fn play_trades_energy_for_happiness() {
    let mut t = Tamo::build(String::from("Pet"));
    t.play();
    assert_eq!(t.happiness, 11000);
    assert_eq!(t.energy, 8000);
}

#[test]
fn eat_consumes_food_when_all_preconditions_hold() {
    let mut t = creature(3100, 1000, 10000, 5000, 100, 100);
    t.eat();
    assert_eq!(t.room.food, 95);
    assert_eq!(t.hunger, 100);
    assert_eq!(t.energy, 4000);
    assert_eq!(t.happiness, 10500);
}

#[test]
fn eat_is_a_noop_when_food_is_low() {
    let t0 = creature(3100, 1000, 10000, 5000, 4, 100);
    let mut t = t0.clone();
    t.eat();
    assert_eq!(t, t0);
}

#[test]
fn eat_is_a_noop_when_hunger_is_low() {
    let t0 = creature(3000, 1000, 10000, 5000, 100, 100);
    let mut t = t0.clone();
    t.eat();
    assert_eq!(t, t0);
}

#[test]
fn eat_is_a_noop_when_energy_is_low() {
    let t0 = creature(3100, 1000, 10000, 100, 100, 100);
    let mut t = t0.clone();
    t.eat();
    assert_eq!(t, t0);
}

#[test]
fn drink_consumes_water_when_all_preconditions_hold() {
    let mut t = creature(1000, 3100, 10000, 5000, 100, 100);
    t.drink();
    assert_eq!(t.room.water, 95);
    assert_eq!(t.thirst, 100);
    assert_eq!(t.energy, 4000);
    assert_eq!(t.happiness, 10500);
}

#[test]
fn drink_is_a_noop_when_any_precondition_fails() {
    let t0 = creature(1000, 3000, 10000, 5000, 100, 4);
    let mut t = t0.clone();
    t.drink();
    assert_eq!(t, t0);
}

#[test]
fn rest_adds_the_exact_bonus() {
    // 20 + 20*(happiness/100) + 20*(100-thirst)/100 + 20*(100-hunger)
    // = 20 + 20 + 18 + 1800 = 1858 whole points on top of 50 energy.
    let mut t = creature(1000, 1000, 10000, 5000, 100, 100);
    t.rest();
    assert_eq!(t.energy, 190800);
    assert_eq!(t.happiness, 11000);
}

#[test]
fn rest_only_fires_below_eighty_energy() {
    let t0 = creature(1000, 1000, 10000, 8000, 100, 100);
    let mut t = t0.clone();
    t.rest();
    assert_eq!(t, t0);
}

#[test]
fn time_pass_decays_every_stat() {
    let mut t = Tamo::build(String::from("Pet"));
    t.time_pass();
    assert_eq!(t.age, 1);
    assert_eq!(t.happiness, 9995);
    assert_eq!(t.thirst, 1002);
    assert_eq!(t.hunger, 1001);
    assert_eq!(t.energy, 9995);
}

#[test]
fn time_pass_charges_extra_energy_on_overrun() {
    let mut t = creature(10000, 1000, 10000, 10000, 100, 100);
    t.time_pass();
    assert_eq!(t.hunger, 10001);
    assert_eq!(t.energy, 9895);
}

#[test]
fn time_pass_kills_below_the_death_threshold() {
    let mut t = creature(1000, 1000, 10000, 104, 100, 100);
    t.time_pass();
    assert!(t.test_dead());
    assert_eq!(t.age, i64::MAX);
    assert_eq!(t.energy, 99);
}

#[test]
fn death_is_idempotent() {
    let mut t = creature(1000, 1000, 10000, 104, 100, 100);
    t.time_pass();
    assert_eq!(t.age, i64::MAX);
    t.time_pass();
    assert_eq!(t.age, i64::MAX);
    assert!(t.test_dead());
}

#[test]
fn exactly_one_point_of_energy_survives_a_tick() {
    // In exact centi arithmetic, energy 1.05 lands on the threshold itself
    // after one tick and the creature is still alive.
    let mut t = creature(1000, 1000, 10000, 105, 100, 100);
    t.time_pass();
    assert_eq!(t.energy, 100);
    assert!(!t.test_dead());
}

#[test]
fn kill_sets_the_age_sentinel() {
    let mut t = Tamo::build(String::from("Pet"));
    t.kill();
    assert_eq!(t.age, i64::MAX);
    assert_eq!(t.energy, 10000);
}

#[test]
fn test_dead_is_the_energy_threshold() {
    let mut dead = creature(1000, 1000, 10000, 99, 100, 100);
    assert!(dead.test_dead());
    let mut alive = creature(1000, 1000, 10000, 100, 100, 100);
    assert!(!alive.test_dead());
}

#[test]
fn serial_feeds_lose_no_update() {
    // Forty-eight feedings from hunger 50.0 lower it by exactly one point
    // each, down to the refusal boundary.
    let mut t = creature(5000, 1000, 10000, 10000, 100, 100);
    for _ in 0..48 {
        t.feed();
    }
    assert_eq!(t.hunger, 200);
    assert_eq!(t.room.food, 100);
    t.feed();
    assert_eq!(t.hunger, 100);
    t.feed();
    assert_eq!(t.hunger, 100);
    assert_eq!(t.room.food, 110);
}
